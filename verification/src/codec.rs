//! The binary snapshot codec: a length-prefixed little-endian encoding of a
//! record set that round-trips losslessly, used for the on-disk cache tier.
//!
//! Integers travel as eight little-endian bytes; characters as their scalar
//! values; strings as a character count followed by the characters; optionals
//! as a presence flag; lists as an entry count followed by the entries. The
//! stream carries no schema-version marker; a record-layout change silently
//! invalidates old snapshots only through the staleness check.

use vstd::prelude::*;
use vstd::bytes::{spec_u64_from_le_bytes, spec_u64_to_le_bytes, lemma_auto_spec_u64_to_from_le_bytes};
use crate::record::{Dependency, DependencyView, PackageHistory, PackageHistoryView, PackageInfo, PackageInfoView, Source, SourceView, dep_views, history_views, records_view};

verus! {

// ---------------------------------------------------------------------------
// size side conditions: every length must fit the eight-byte prefix
// ---------------------------------------------------------------------------

pub open spec fn str_ok(s: Seq<char>) -> bool {
    s.len() <= u64::MAX
}

pub open spec fn source_ok(s: SourceView) -> bool {
    str_ok(s.name) && str_ok(s.homepage)
}

pub open spec fn hist_ok(h: PackageHistoryView) -> bool {
    str_ok(h.version) && str_ok(h.date)
}

pub open spec fn dep_ok(d: DependencyView) -> bool {
    str_ok(d.name) && (d.version matches Some(v) ==> str_ok(v))
}

pub open spec fn record_ok(r: PackageInfoView) -> bool {
    &&& str_ok(r.name)
    &&& str_ok(r.summary)
    &&& str_ok(r.description)
    &&& str_ok(r.version)
    &&& str_ok(r.license)
    &&& str_ok(r.part_of)
    &&& str_ok(r.package_format)
    &&& str_ok(r.distribution)
    &&& str_ok(r.distribution_release)
    &&& str_ok(r.architecture)
    &&& (r.source matches Some(s) ==> source_ok(s))
    &&& r.history.len() <= u64::MAX
    &&& (forall|i: int| 0 <= i < r.history.len() ==> hist_ok(#[trigger] r.history[i]))
    &&& r.dependencies.len() <= u64::MAX
    &&& (forall|i: int| 0 <= i < r.dependencies.len() ==> dep_ok(#[trigger] r.dependencies[i]))
}

pub open spec fn records_ok(rs: Seq<PackageInfoView>) -> bool {
    rs.len() <= u64::MAX && (forall|i: int| 0 <= i < rs.len() ==> record_ok(#[trigger] rs[i]))
}

// ---------------------------------------------------------------------------
// encoders
// ---------------------------------------------------------------------------

pub open spec fn enc_u64(v: u64) -> Seq<u8> {
    spec_u64_to_le_bytes(v)
}

pub open spec fn enc_u32(v: u32) -> Seq<u8> {
    enc_u64(v as u64)
}

pub open spec fn enc_char(c: char) -> Seq<u8> {
    enc_u64(c as u64)
}

pub open spec fn enc_chars(s: Seq<char>) -> Seq<u8>
    decreases s.len(),
{
    if s.len() == 0 {
        Seq::empty()
    } else {
        enc_char(s[0]) + enc_chars(s.drop_first())
    }
}

pub open spec fn enc_str(s: Seq<char>) -> Seq<u8> {
    enc_u64(s.len() as u64) + enc_chars(s)
}

pub open spec fn enc_opt_str(o: Option<Seq<char>>) -> Seq<u8> {
    match o {
        None => enc_u64(0),
        Some(v) => enc_u64(1) + enc_str(v),
    }
}

pub open spec fn enc_opt_u32(o: Option<u32>) -> Seq<u8> {
    match o {
        None => enc_u64(0),
        Some(v) => enc_u64(1) + enc_u32(v),
    }
}

pub open spec fn enc_source(s: SourceView) -> Seq<u8> {
    enc_str(s.name) + enc_str(s.homepage)
}

pub open spec fn enc_opt_source(o: Option<SourceView>) -> Seq<u8> {
    match o {
        None => enc_u64(0),
        Some(v) => enc_u64(1) + enc_source(v),
    }
}

pub open spec fn enc_hist(h: PackageHistoryView) -> Seq<u8> {
    enc_str(h.version) + enc_u32(h.release) + enc_str(h.date)
}

pub open spec fn enc_hists(s: Seq<PackageHistoryView>) -> Seq<u8>
    decreases s.len(),
{
    if s.len() == 0 {
        Seq::empty()
    } else {
        enc_hist(s[0]) + enc_hists(s.drop_first())
    }
}

pub open spec fn enc_hist_list(s: Seq<PackageHistoryView>) -> Seq<u8> {
    enc_u64(s.len() as u64) + enc_hists(s)
}

pub open spec fn enc_dep(d: DependencyView) -> Seq<u8> {
    enc_str(d.name) + enc_opt_str(d.version) + enc_opt_u32(d.release)
}

pub open spec fn enc_deps(s: Seq<DependencyView>) -> Seq<u8>
    decreases s.len(),
{
    if s.len() == 0 {
        Seq::empty()
    } else {
        enc_dep(s[0]) + enc_deps(s.drop_first())
    }
}

pub open spec fn enc_dep_list(s: Seq<DependencyView>) -> Seq<u8> {
    enc_u64(s.len() as u64) + enc_deps(s)
}

pub open spec fn enc_record(r: PackageInfoView) -> Seq<u8> {
    enc_str(r.name) + (enc_str(r.summary) + (enc_str(r.description) + (enc_str(r.version) + (enc_u32(r.release) + (enc_str(r.license) + (enc_str(r.part_of) + (enc_u64(r.package_size) + (enc_u64(r.installed_size) + (enc_str(r.package_format) + (enc_str(r.distribution) + (enc_str(r.distribution_release) + (enc_str(r.architecture) + (enc_opt_source(r.source) + (enc_hist_list(r.history) + (enc_dep_list(r.dependencies))))))))))))))))
}

pub open spec fn enc_recs(s: Seq<PackageInfoView>) -> Seq<u8>
    decreases s.len(),
{
    if s.len() == 0 {
        Seq::empty()
    } else {
        enc_record(s[0]) + enc_recs(s.drop_first())
    }
}

/// The whole snapshot stream for a record set.
pub open spec fn spec_encode(rs: Seq<PackageInfoView>) -> Seq<u8> {
    enc_u64(rs.len() as u64) + enc_recs(rs)
}

// ---------------------------------------------------------------------------
// decoders: each yields the value and the position after it
// ---------------------------------------------------------------------------

pub open spec fn dec_u64(s: Seq<u8>, pos: int) -> Option<(u64, int)> {
    if 0 <= pos && pos + 8 <= s.len() {
        Some((spec_u64_from_le_bytes(s.subrange(pos, pos + 8)), pos + 8))
    } else {
        None
    }
}

pub open spec fn dec_u32(s: Seq<u8>, pos: int) -> Option<(u32, int)> {
    match dec_u64(s, pos) {
        Some((v, p)) => if v <= u32::MAX {
            Some(((v as u32), p))
        } else {
            None
        },
        None => None,
    }
}

/// A decoded code unit must be a valid scalar value.
pub open spec fn scalar_ok(v: u64) -> bool {
    v < 0xD800 || (0xDFFF < v && v <= 0x10FFFF)
}

pub open spec fn dec_char(s: Seq<u8>, pos: int) -> Option<(char, int)> {
    match dec_u64(s, pos) {
        Some((v, p)) => if scalar_ok(v) {
            Some((((v as u32) as char), p))
        } else {
            None
        },
        None => None,
    }
}

pub open spec fn dec_chars(s: Seq<u8>, pos: int, n: nat) -> Option<(Seq<char>, int)>
    decreases n,
{
    if n == 0 {
        Some((Seq::empty(), pos))
    } else {
        match dec_char(s, pos) {
            Some((c, p)) => match dec_chars(s, p, (n - 1) as nat) {
                Some((cs, p2)) => Some((seq![c] + cs, p2)),
                None => None,
            },
            None => None,
        }
    }
}

pub open spec fn dec_str(s: Seq<u8>, pos: int) -> Option<(Seq<char>, int)> {
    match dec_u64(s, pos) {
        Some((n, p)) => dec_chars(s, p, n as nat),
        None => None,
    }
}

pub open spec fn dec_opt_str(s: Seq<u8>, pos: int) -> Option<(Option<Seq<char>>, int)> {
    match dec_u64(s, pos) {
        Some((f, p)) => if f == 0 {
            Some((None, p))
        } else if f == 1 {
            match dec_str(s, p) {
                Some((v, p2)) => Some((Some(v), p2)),
                None => None,
            }
        } else {
            None
        },
        None => None,
    }
}

pub open spec fn dec_opt_u32(s: Seq<u8>, pos: int) -> Option<(Option<u32>, int)> {
    match dec_u64(s, pos) {
        Some((f, p)) => if f == 0 {
            Some((None, p))
        } else if f == 1 {
            match dec_u32(s, p) {
                Some((v, p2)) => Some((Some(v), p2)),
                None => None,
            }
        } else {
            None
        },
        None => None,
    }
}

pub open spec fn dec_source(s: Seq<u8>, pos: int) -> Option<(SourceView, int)> {
    match dec_str(s, pos) {
        Some((name, p1)) => match dec_str(s, p1) {
            Some((homepage, p2)) => Some((SourceView { name, homepage }, p2)),
            None => None,
        },
        None => None,
    }
}

pub open spec fn dec_opt_source(s: Seq<u8>, pos: int) -> Option<(Option<SourceView>, int)> {
    match dec_u64(s, pos) {
        Some((f, p)) => if f == 0 {
            Some((None, p))
        } else if f == 1 {
            match dec_source(s, p) {
                Some((v, p2)) => Some((Some(v), p2)),
                None => None,
            }
        } else {
            None
        },
        None => None,
    }
}

pub open spec fn dec_hist(s: Seq<u8>, pos: int) -> Option<(PackageHistoryView, int)> {
    match dec_str(s, pos) {
        Some((version, p1)) => match dec_u32(s, p1) {
            Some((release, p2)) => match dec_str(s, p2) {
                Some((date, p3)) => Some((PackageHistoryView { version, release, date }, p3)),
                None => None,
            },
            None => None,
        },
        None => None,
    }
}

pub open spec fn dec_hists(s: Seq<u8>, pos: int, n: nat) -> Option<(Seq<PackageHistoryView>, int)>
    decreases n,
{
    if n == 0 {
        Some((Seq::empty(), pos))
    } else {
        match dec_hist(s, pos) {
            Some((h, p)) => match dec_hists(s, p, (n - 1) as nat) {
                Some((hs, p2)) => Some((seq![h] + hs, p2)),
                None => None,
            },
            None => None,
        }
    }
}

pub open spec fn dec_hist_list(s: Seq<u8>, pos: int) -> Option<(Seq<PackageHistoryView>, int)> {
    match dec_u64(s, pos) {
        Some((n, p)) => dec_hists(s, p, n as nat),
        None => None,
    }
}

pub open spec fn dec_dep(s: Seq<u8>, pos: int) -> Option<(DependencyView, int)> {
    match dec_str(s, pos) {
        Some((name, p1)) => match dec_opt_str(s, p1) {
            Some((version, p2)) => match dec_opt_u32(s, p2) {
                Some((release, p3)) => Some((DependencyView { name, version, release }, p3)),
                None => None,
            },
            None => None,
        },
        None => None,
    }
}

pub open spec fn dec_deps(s: Seq<u8>, pos: int, n: nat) -> Option<(Seq<DependencyView>, int)>
    decreases n,
{
    if n == 0 {
        Some((Seq::empty(), pos))
    } else {
        match dec_dep(s, pos) {
            Some((d, p)) => match dec_deps(s, p, (n - 1) as nat) {
                Some((ds, p2)) => Some((seq![d] + ds, p2)),
                None => None,
            },
            None => None,
        }
    }
}

pub open spec fn dec_dep_list(s: Seq<u8>, pos: int) -> Option<(Seq<DependencyView>, int)> {
    match dec_u64(s, pos) {
        Some((n, p)) => dec_deps(s, p, n as nat),
        None => None,
    }
}

pub open spec fn dec_record(s: Seq<u8>, pos: int) -> Option<(PackageInfoView, int)> {
    match dec_str(s, pos) {
        Some((name, p1)) => {
            match dec_str(s, p1) {
                Some((summary, p2)) => {
                    match dec_str(s, p2) {
                        Some((description, p3)) => {
                            match dec_str(s, p3) {
                                Some((version, p4)) => {
                                    match dec_u32(s, p4) {
                                        Some((release, p5)) => {
                                            match dec_str(s, p5) {
                                                Some((license, p6)) => {
                                                    match dec_str(s, p6) {
                                                        Some((part_of, p7)) => {
                                                            match dec_u64(s, p7) {
                                                                Some((package_size, p8)) => {
                                                                    match dec_u64(s, p8) {
                                                                        Some((installed_size, p9)) => {
                                                                            match dec_str(s, p9) {
                                                                                Some((package_format, p10)) => {
                                                                                    match dec_str(s, p10) {
                                                                                        Some((distribution, p11)) => {
                                                                                            match dec_str(s, p11) {
                                                                                                Some((distribution_release, p12)) => {
                                                                                                    match dec_str(s, p12) {
                                                                                                        Some((architecture, p13)) => {
                                                                                                            match dec_opt_source(s, p13) {
                                                                                                                Some((source, p14)) => {
                                                                                                                    match dec_hist_list(s, p14) {
                                                                                                                        Some((history, p15)) => {
                                                                                                                            match dec_dep_list(s, p15) {
                                                                                                                                Some((dependencies, p16)) => {
                                                                                                                                    Some((PackageInfoView { name, summary, description, version, release, license, part_of, package_size, installed_size, package_format, distribution, distribution_release, architecture, source, history, dependencies }, p16))
                                                                                                                                },
                                                                                                                                None => None,
                                                                                                                            }
                                                                                                                        },
                                                                                                                        None => None,
                                                                                                                    }
                                                                                                                },
                                                                                                                None => None,
                                                                                                            }
                                                                                                        },
                                                                                                        None => None,
                                                                                                    }
                                                                                                },
                                                                                                None => None,
                                                                                            }
                                                                                        },
                                                                                        None => None,
                                                                                    }
                                                                                },
                                                                                None => None,
                                                                            }
                                                                        },
                                                                        None => None,
                                                                    }
                                                                },
                                                                None => None,
                                                            }
                                                        },
                                                        None => None,
                                                    }
                                                },
                                                None => None,
                                            }
                                        },
                                        None => None,
                                    }
                                },
                                None => None,
                            }
                        },
                        None => None,
                    }
                },
                None => None,
            }
        },
        None => None,
    }
}

pub open spec fn dec_recs(s: Seq<u8>, pos: int, n: nat) -> Option<(Seq<PackageInfoView>, int)>
    decreases n,
{
    if n == 0 {
        Some((Seq::empty(), pos))
    } else {
        match dec_record(s, pos) {
            Some((r, p)) => match dec_recs(s, p, (n - 1) as nat) {
                Some((rs, p2)) => Some((seq![r] + rs, p2)),
                None => None,
            },
            None => None,
        }
    }
}

/// The record set a snapshot stream denotes; `None` when the stream is not a
/// whole, well-formed encoding.
pub open spec fn spec_decode(s: Seq<u8>) -> Option<Seq<PackageInfoView>> {
    match dec_u64(s, 0) {
        Some((n, p)) => match dec_recs(s, p, n as nat) {
            Some((rs, p2)) => if p2 == s.len() {
                Some(rs)
            } else {
                None
            },
            None => None,
        },
        None => None,
    }
}


// ---------------------------------------------------------------------------
// round-trip lemmas: decoding an encoding, at any position in any stream,
// yields the encoded value and stops right after it
// ---------------------------------------------------------------------------

proof fn lemma_add_assoc(a: Seq<u8>, b: Seq<u8>, c: Seq<u8>)
    ensures
        (a + b) + c == a + (b + c),
{
    assert((a + b) + c =~= a + (b + c));
}

proof fn lemma_rt_u64(pre: Seq<u8>, v: u64, suf: Seq<u8>)
    ensures
        enc_u64(v).len() == 8,
        dec_u64(pre + enc_u64(v) + suf, pre.len() as int) == Some((v, pre.len() as int + 8)),
{
    lemma_auto_spec_u64_to_from_le_bytes();
    let s = pre + enc_u64(v) + suf;
    assert(s.subrange(pre.len() as int, pre.len() as int + 8) =~= enc_u64(v));
}

proof fn lemma_rt_u32(pre: Seq<u8>, v: u32, suf: Seq<u8>)
    ensures
        enc_u32(v).len() == 8,
        dec_u32(pre + enc_u32(v) + suf, pre.len() as int) == Some((v, pre.len() as int + 8)),
{
    lemma_rt_u64(pre, v as u64, suf);
    assert((v as u64) as u32 == v);
}

proof fn lemma_rt_char(pre: Seq<u8>, c: char, suf: Seq<u8>)
    ensures
        enc_char(c).len() == 8,
        dec_char(pre + enc_char(c) + suf, pre.len() as int) == Some((c, pre.len() as int + 8)),
{
    lemma_rt_u64(pre, c as u64, suf);
    vstd::utf8::char_is_scalar(c);
    assert(c as u64 == (c as u32) as u64);
    assert(scalar_ok(c as u64));
    vstd::utf8::char_u32_cast(c, c as u32);
    assert(((c as u64) as u32) as char == c);
}

proof fn lemma_rt_chars(pre: Seq<u8>, v: Seq<char>, suf: Seq<u8>)
    ensures
        enc_chars(v).len() == 8 * v.len(),
        dec_chars(pre + enc_chars(v) + suf, pre.len() as int, v.len()) == Some(
            (v, pre.len() as int + enc_chars(v).len()),
        ),
    decreases v.len(),
{
    if v.len() == 0 {
        assert(enc_chars(v) =~= Seq::<u8>::empty());
        assert(v =~= Seq::<char>::empty());
    } else {
        let s = pre + enc_chars(v) + suf;
        let c0 = v[0];
        let rest = v.drop_first();
        assert(enc_chars(v) == enc_char(c0) + enc_chars(rest));
        assert(s =~= pre + enc_char(c0) + (enc_chars(rest) + suf));
        lemma_rt_char(pre, c0, enc_chars(rest) + suf);
        assert(s =~= (pre + enc_char(c0)) + enc_chars(rest) + suf);
        lemma_rt_chars(pre + enc_char(c0), rest, suf);
        assert(seq![c0] + rest =~= v);
        assert(dec_chars(s, pre.len() as int, v.len()) == Some(
            (v, pre.len() as int + enc_chars(v).len()),
        ));
    }
}

proof fn lemma_rt_str(pre: Seq<u8>, v: Seq<char>, suf: Seq<u8>)
    requires
        str_ok(v),
    ensures
        dec_str(pre + enc_str(v) + suf, pre.len() as int) == Some(
            (v, pre.len() as int + enc_str(v).len()),
        ),
{
    let s = pre + enc_str(v) + suf;
    let n = v.len() as u64;
    assert(enc_str(v) == enc_u64(n) + enc_chars(v));
    assert(s =~= pre + enc_u64(n) + (enc_chars(v) + suf));
    lemma_rt_u64(pre, n, enc_chars(v) + suf);
    assert(s =~= (pre + enc_u64(n)) + enc_chars(v) + suf);
    lemma_rt_chars(pre + enc_u64(n), v, suf);
    assert(n as nat == v.len());
}

proof fn lemma_rt_opt_str(pre: Seq<u8>, v: Option<Seq<char>>, suf: Seq<u8>)
    requires
        v matches Some(x) ==> str_ok(x),
    ensures
        dec_opt_str(pre + enc_opt_str(v) + suf, pre.len() as int) == Some(
            (v, pre.len() as int + enc_opt_str(v).len()),
        ),
{
    match v {
        None => {
            lemma_rt_u64(pre, 0, suf);
        },
        Some(x) => {
            let s = pre + enc_opt_str(v) + suf;
            assert(enc_opt_str(v) == enc_u64(1) + enc_str(x));
            assert(s =~= pre + enc_u64(1) + (enc_str(x) + suf));
            lemma_rt_u64(pre, 1, enc_str(x) + suf);
            assert(s =~= (pre + enc_u64(1)) + enc_str(x) + suf);
            lemma_rt_str(pre + enc_u64(1), x, suf);
        },
    }
}

proof fn lemma_rt_opt_u32(pre: Seq<u8>, v: Option<u32>, suf: Seq<u8>)
    ensures
        dec_opt_u32(pre + enc_opt_u32(v) + suf, pre.len() as int) == Some(
            (v, pre.len() as int + enc_opt_u32(v).len()),
        ),
{
    match v {
        None => {
            lemma_rt_u64(pre, 0, suf);
        },
        Some(x) => {
            let s = pre + enc_opt_u32(v) + suf;
            assert(enc_opt_u32(v) == enc_u64(1) + enc_u32(x));
            assert(s =~= pre + enc_u64(1) + (enc_u32(x) + suf));
            lemma_rt_u64(pre, 1, enc_u32(x) + suf);
            assert(s =~= (pre + enc_u64(1)) + enc_u32(x) + suf);
            lemma_rt_u32(pre + enc_u64(1), x, suf);
        },
    }
}

proof fn lemma_rt_source(pre: Seq<u8>, v: SourceView, suf: Seq<u8>)
    requires
        source_ok(v),
    ensures
        dec_source(pre + enc_source(v) + suf, pre.len() as int) == Some(
            (v, pre.len() as int + enc_source(v).len()),
        ),
{
    let s = pre + enc_source(v) + suf;
    let e1 = enc_str(v.name);
    let e2 = enc_str(v.homepage);
    assert(enc_source(v) == e1 + e2);
    assert(s =~= pre + e1 + (e2 + suf));
    lemma_rt_str(pre, v.name, e2 + suf);
    assert(s =~= (pre + e1) + e2 + suf);
    lemma_rt_str(pre + e1, v.homepage, suf);
}

proof fn lemma_rt_opt_source(pre: Seq<u8>, v: Option<SourceView>, suf: Seq<u8>)
    requires
        v matches Some(x) ==> source_ok(x),
    ensures
        dec_opt_source(pre + enc_opt_source(v) + suf, pre.len() as int) == Some(
            (v, pre.len() as int + enc_opt_source(v).len()),
        ),
{
    match v {
        None => {
            lemma_rt_u64(pre, 0, suf);
        },
        Some(x) => {
            let s = pre + enc_opt_source(v) + suf;
            assert(enc_opt_source(v) == enc_u64(1) + enc_source(x));
            assert(s =~= pre + enc_u64(1) + (enc_source(x) + suf));
            lemma_rt_u64(pre, 1, enc_source(x) + suf);
            assert(s =~= (pre + enc_u64(1)) + enc_source(x) + suf);
            lemma_rt_source(pre + enc_u64(1), x, suf);
        },
    }
}

proof fn lemma_rt_hist(pre: Seq<u8>, v: PackageHistoryView, suf: Seq<u8>)
    requires
        hist_ok(v),
    ensures
        dec_hist(pre + enc_hist(v) + suf, pre.len() as int) == Some(
            (v, pre.len() as int + enc_hist(v).len()),
        ),
{
    let s = pre + enc_hist(v) + suf;
    let e1 = enc_str(v.version);
    let e2 = enc_u32(v.release);
    let e3 = enc_str(v.date);
    assert(enc_hist(v) == e1 + e2 + e3);
    assert(s =~= pre + e1 + (e2 + e3 + suf));
    lemma_rt_str(pre, v.version, e2 + e3 + suf);
    assert(s =~= (pre + e1) + e2 + (e3 + suf));
    lemma_rt_u32(pre + e1, v.release, e3 + suf);
    assert(s =~= (pre + e1 + e2) + e3 + suf);
    lemma_rt_str(pre + e1 + e2, v.date, suf);
}

proof fn lemma_rt_hists(pre: Seq<u8>, v: Seq<PackageHistoryView>, suf: Seq<u8>)
    requires
        forall|i: int| 0 <= i < v.len() ==> hist_ok(#[trigger] v[i]),
    ensures
        dec_hists(pre + enc_hists(v) + suf, pre.len() as int, v.len()) == Some(
            (v, pre.len() as int + enc_hists(v).len()),
        ),
    decreases v.len(),
{
    if v.len() == 0 {
        assert(enc_hists(v) =~= Seq::<u8>::empty());
        assert(v =~= Seq::<PackageHistoryView>::empty());
    } else {
        let s = pre + enc_hists(v) + suf;
        let h0 = v[0];
        let rest = v.drop_first();
        assert(enc_hists(v) == enc_hist(h0) + enc_hists(rest));
        assert(s =~= pre + enc_hist(h0) + (enc_hists(rest) + suf));
        lemma_rt_hist(pre, h0, enc_hists(rest) + suf);
        assert(s =~= (pre + enc_hist(h0)) + enc_hists(rest) + suf);
        assert(forall|i: int| 0 <= i < rest.len() ==> hist_ok(#[trigger] rest[i]));
        lemma_rt_hists(pre + enc_hist(h0), rest, suf);
        assert(seq![h0] + rest =~= v);
        assert(dec_hists(s, pre.len() as int, v.len()) == Some(
            (v, pre.len() as int + enc_hists(v).len()),
        ));
    }
}

proof fn lemma_rt_hist_list(pre: Seq<u8>, v: Seq<PackageHistoryView>, suf: Seq<u8>)
    requires
        v.len() <= u64::MAX,
        forall|i: int| 0 <= i < v.len() ==> hist_ok(#[trigger] v[i]),
    ensures
        dec_hist_list(pre + enc_hist_list(v) + suf, pre.len() as int) == Some(
            (v, pre.len() as int + enc_hist_list(v).len()),
        ),
{
    let s = pre + enc_hist_list(v) + suf;
    let n = v.len() as u64;
    assert(enc_hist_list(v) == enc_u64(n) + enc_hists(v));
    assert(s =~= pre + enc_u64(n) + (enc_hists(v) + suf));
    lemma_rt_u64(pre, n, enc_hists(v) + suf);
    assert(s =~= (pre + enc_u64(n)) + enc_hists(v) + suf);
    lemma_rt_hists(pre + enc_u64(n), v, suf);
    assert(n as nat == v.len());
}

proof fn lemma_rt_dep(pre: Seq<u8>, v: DependencyView, suf: Seq<u8>)
    requires
        dep_ok(v),
    ensures
        dec_dep(pre + enc_dep(v) + suf, pre.len() as int) == Some(
            (v, pre.len() as int + enc_dep(v).len()),
        ),
{
    let s = pre + enc_dep(v) + suf;
    let e1 = enc_str(v.name);
    let e2 = enc_opt_str(v.version);
    let e3 = enc_opt_u32(v.release);
    assert(enc_dep(v) == e1 + e2 + e3);
    assert(s =~= pre + e1 + (e2 + e3 + suf));
    lemma_rt_str(pre, v.name, e2 + e3 + suf);
    assert(s =~= (pre + e1) + e2 + (e3 + suf));
    lemma_rt_opt_str(pre + e1, v.version, e3 + suf);
    assert(s =~= (pre + e1 + e2) + e3 + suf);
    lemma_rt_opt_u32(pre + e1 + e2, v.release, suf);
}

proof fn lemma_rt_deps(pre: Seq<u8>, v: Seq<DependencyView>, suf: Seq<u8>)
    requires
        forall|i: int| 0 <= i < v.len() ==> dep_ok(#[trigger] v[i]),
    ensures
        dec_deps(pre + enc_deps(v) + suf, pre.len() as int, v.len()) == Some(
            (v, pre.len() as int + enc_deps(v).len()),
        ),
    decreases v.len(),
{
    if v.len() == 0 {
        assert(enc_deps(v) =~= Seq::<u8>::empty());
        assert(v =~= Seq::<DependencyView>::empty());
    } else {
        let s = pre + enc_deps(v) + suf;
        let d0 = v[0];
        let rest = v.drop_first();
        assert(enc_deps(v) == enc_dep(d0) + enc_deps(rest));
        assert(s =~= pre + enc_dep(d0) + (enc_deps(rest) + suf));
        lemma_rt_dep(pre, d0, enc_deps(rest) + suf);
        assert(s =~= (pre + enc_dep(d0)) + enc_deps(rest) + suf);
        assert(forall|i: int| 0 <= i < rest.len() ==> dep_ok(#[trigger] rest[i]));
        lemma_rt_deps(pre + enc_dep(d0), rest, suf);
        assert(seq![d0] + rest =~= v);
        assert(dec_deps(s, pre.len() as int, v.len()) == Some(
            (v, pre.len() as int + enc_deps(v).len()),
        ));
    }
}

proof fn lemma_rt_dep_list(pre: Seq<u8>, v: Seq<DependencyView>, suf: Seq<u8>)
    requires
        v.len() <= u64::MAX,
        forall|i: int| 0 <= i < v.len() ==> dep_ok(#[trigger] v[i]),
    ensures
        dec_dep_list(pre + enc_dep_list(v) + suf, pre.len() as int) == Some(
            (v, pre.len() as int + enc_dep_list(v).len()),
        ),
{
    let s = pre + enc_dep_list(v) + suf;
    let n = v.len() as u64;
    assert(enc_dep_list(v) == enc_u64(n) + enc_deps(v));
    assert(s =~= pre + enc_u64(n) + (enc_deps(v) + suf));
    lemma_rt_u64(pre, n, enc_deps(v) + suf);
    assert(s =~= (pre + enc_u64(n)) + enc_deps(v) + suf);
    lemma_rt_deps(pre + enc_u64(n), v, suf);
    assert(n as nat == v.len());
}

#[verifier::rlimit(100)]
#[verifier::spinoff_prover]
proof fn lemma_rt_record(pre: Seq<u8>, v: PackageInfoView, suf: Seq<u8>)
    requires
        record_ok(v),
    ensures
        dec_record(pre + enc_record(v) + suf, pre.len() as int) == Some(
            (v, pre.len() as int + enc_record(v).len()),
        ),
{
    let e1 = enc_str(v.name);
    let e2 = enc_str(v.summary);
    let e3 = enc_str(v.description);
    let e4 = enc_str(v.version);
    let e5 = enc_u32(v.release);
    let e6 = enc_str(v.license);
    let e7 = enc_str(v.part_of);
    let e8 = enc_u64(v.package_size);
    let e9 = enc_u64(v.installed_size);
    let e10 = enc_str(v.package_format);
    let e11 = enc_str(v.distribution);
    let e12 = enc_str(v.distribution_release);
    let e13 = enc_str(v.architecture);
    let e14 = enc_opt_source(v.source);
    let e15 = enc_hist_list(v.history);
    let e16 = enc_dep_list(v.dependencies);
    let s = pre + enc_record(v) + suf;
    let t16 = e16;
    let t15 = e15 + t16;
    let t14 = e14 + t15;
    let t13 = e13 + t14;
    let t12 = e12 + t13;
    let t11 = e11 + t12;
    let t10 = e10 + t11;
    let t9 = e9 + t10;
    let t8 = e8 + t9;
    let t7 = e7 + t8;
    let t6 = e6 + t7;
    let t5 = e5 + t6;
    let t4 = e4 + t5;
    let t3 = e3 + t4;
    let t2 = e2 + t3;
    let t1 = e1 + t2;
    assert(enc_record(v) == t1);
    let r17 = suf;
    let r16 = e16 + r17;
    let r15 = e15 + r16;
    let r14 = e14 + r15;
    let r13 = e13 + r14;
    let r12 = e12 + r13;
    let r11 = e11 + r12;
    let r10 = e10 + r11;
    let r9 = e9 + r10;
    let r8 = e8 + r9;
    let r7 = e7 + r8;
    let r6 = e6 + r7;
    let r5 = e5 + r6;
    let r4 = e4 + r5;
    let r3 = e3 + r4;
    let r2 = e2 + r3;
    let r1 = e1 + r2;
    assert(t16 + suf == r16);
    lemma_add_assoc(e15, t16, suf);
    assert(t15 + suf == r15);
    lemma_add_assoc(e14, t15, suf);
    assert(t14 + suf == r14);
    lemma_add_assoc(e13, t14, suf);
    assert(t13 + suf == r13);
    lemma_add_assoc(e12, t13, suf);
    assert(t12 + suf == r12);
    lemma_add_assoc(e11, t12, suf);
    assert(t11 + suf == r11);
    lemma_add_assoc(e10, t11, suf);
    assert(t10 + suf == r10);
    lemma_add_assoc(e9, t10, suf);
    assert(t9 + suf == r9);
    lemma_add_assoc(e8, t9, suf);
    assert(t8 + suf == r8);
    lemma_add_assoc(e7, t8, suf);
    assert(t7 + suf == r7);
    lemma_add_assoc(e6, t7, suf);
    assert(t6 + suf == r6);
    lemma_add_assoc(e5, t6, suf);
    assert(t5 + suf == r5);
    lemma_add_assoc(e4, t5, suf);
    assert(t4 + suf == r4);
    lemma_add_assoc(e3, t4, suf);
    assert(t3 + suf == r3);
    lemma_add_assoc(e2, t3, suf);
    assert(t2 + suf == r2);
    lemma_add_assoc(e1, t2, suf);
    assert(t1 + suf == r1);
    lemma_add_assoc(pre, t1, suf);
    assert(s == pre + r1);
    let a0 = pre;
    lemma_add_assoc(a0, e1, r2);
    assert(s == (a0 + e1) + r2);
    lemma_rt_str(a0, v.name, r2);
    let a1 = a0 + e1;
    lemma_add_assoc(a1, e2, r3);
    assert(s == (a1 + e2) + r3);
    lemma_rt_str(a1, v.summary, r3);
    let a2 = a1 + e2;
    lemma_add_assoc(a2, e3, r4);
    assert(s == (a2 + e3) + r4);
    lemma_rt_str(a2, v.description, r4);
    let a3 = a2 + e3;
    lemma_add_assoc(a3, e4, r5);
    assert(s == (a3 + e4) + r5);
    lemma_rt_str(a3, v.version, r5);
    let a4 = a3 + e4;
    lemma_add_assoc(a4, e5, r6);
    assert(s == (a4 + e5) + r6);
    lemma_rt_u32(a4, v.release, r6);
    let a5 = a4 + e5;
    lemma_add_assoc(a5, e6, r7);
    assert(s == (a5 + e6) + r7);
    lemma_rt_str(a5, v.license, r7);
    let a6 = a5 + e6;
    lemma_add_assoc(a6, e7, r8);
    assert(s == (a6 + e7) + r8);
    lemma_rt_str(a6, v.part_of, r8);
    let a7 = a6 + e7;
    lemma_add_assoc(a7, e8, r9);
    assert(s == (a7 + e8) + r9);
    lemma_rt_u64(a7, v.package_size, r9);
    let a8 = a7 + e8;
    lemma_add_assoc(a8, e9, r10);
    assert(s == (a8 + e9) + r10);
    lemma_rt_u64(a8, v.installed_size, r10);
    let a9 = a8 + e9;
    lemma_add_assoc(a9, e10, r11);
    assert(s == (a9 + e10) + r11);
    lemma_rt_str(a9, v.package_format, r11);
    let a10 = a9 + e10;
    lemma_add_assoc(a10, e11, r12);
    assert(s == (a10 + e11) + r12);
    lemma_rt_str(a10, v.distribution, r12);
    let a11 = a10 + e11;
    lemma_add_assoc(a11, e12, r13);
    assert(s == (a11 + e12) + r13);
    lemma_rt_str(a11, v.distribution_release, r13);
    let a12 = a11 + e12;
    lemma_add_assoc(a12, e13, r14);
    assert(s == (a12 + e13) + r14);
    lemma_rt_str(a12, v.architecture, r14);
    let a13 = a12 + e13;
    lemma_add_assoc(a13, e14, r15);
    assert(s == (a13 + e14) + r15);
    lemma_rt_opt_source(a13, v.source, r15);
    let a14 = a13 + e14;
    lemma_add_assoc(a14, e15, r16);
    assert(s == (a14 + e15) + r16);
    lemma_rt_hist_list(a14, v.history, r16);
    let a15 = a14 + e15;
    lemma_add_assoc(a15, e16, r17);
    assert(s == (a15 + e16) + r17);
    lemma_rt_dep_list(a15, v.dependencies, r17);
    let a16 = a15 + e16;
    assert(a16.len() == pre.len() as int + enc_record(v).len());
    assert(dec_record(s, pre.len() as int) == Some((v, pre.len() as int + enc_record(v).len())));
}

#[verifier::rlimit(60)]
#[verifier::spinoff_prover]
proof fn lemma_rt_recs(pre: Seq<u8>, v: Seq<PackageInfoView>, suf: Seq<u8>)
    requires
        forall|i: int| 0 <= i < v.len() ==> record_ok(#[trigger] v[i]),
    ensures
        dec_recs(pre + enc_recs(v) + suf, pre.len() as int, v.len()) == Some(
            (v, pre.len() as int + enc_recs(v).len()),
        ),
    decreases v.len(),
{
    if v.len() == 0 {
        assert(enc_recs(v) =~= Seq::<u8>::empty());
        assert(v =~= Seq::<PackageInfoView>::empty());
    } else {
        let s = pre + enc_recs(v) + suf;
        let r0 = v[0];
        let rest = v.drop_first();
        assert(enc_recs(v) == enc_record(r0) + enc_recs(rest));
        assert(s =~= pre + enc_record(r0) + (enc_recs(rest) + suf));
        lemma_rt_record(pre, r0, enc_recs(rest) + suf);
        assert(s =~= (pre + enc_record(r0)) + enc_recs(rest) + suf);
        assert(forall|i: int| 0 <= i < rest.len() ==> record_ok(#[trigger] rest[i]));
        lemma_rt_recs(pre + enc_record(r0), rest, suf);
        assert(seq![r0] + rest =~= v);
        assert(dec_recs(s, pre.len() as int, v.len()) == Some(
            (v, pre.len() as int + enc_recs(v).len()),
        ));
    }
}

/// Decoding an encoded record set yields exactly that record set: the
/// snapshot format loses nothing, whatever the records hold, absent optionals
/// and empty lists included.
pub proof fn lemma_snapshot_round_trip(rs: Seq<PackageInfoView>)
    requires
        records_ok(rs),
    ensures
        spec_decode(spec_encode(rs)) == Some(rs),
{
    let s = spec_encode(rs);
    let pre = Seq::<u8>::empty();
    let suf = Seq::<u8>::empty();
    let n = rs.len() as u64;
    assert(spec_encode(rs) == enc_u64(n) + enc_recs(rs));
    assert(s =~= pre + enc_u64(n) + (enc_recs(rs) + suf));
    lemma_rt_u64(pre, n, enc_recs(rs) + suf);
    assert(s =~= (pre + enc_u64(n)) + enc_recs(rs) + suf);
    lemma_rt_recs(pre + enc_u64(n), rs, suf);
    assert(n as nat == rs.len());
    assert(dec_u64(s, 0) == Some((n, pre.len() as int + 8)));
    assert(s.len() == 8 + enc_recs(rs).len());
}


// ---------------------------------------------------------------------------
// appending one element to an encoded list appends its encoding
// ---------------------------------------------------------------------------

proof fn lemma_enc_chars_push(s: Seq<char>, c: char)
    ensures
        enc_chars(s.push(c)) == enc_chars(s) + enc_char(c),
    decreases s.len(),
{
    if s.len() == 0 {
        assert(s.push(c)[0] == c);
        assert(s.push(c).drop_first() =~= Seq::<char>::empty());
        assert(enc_chars(Seq::<char>::empty()) == Seq::<u8>::empty());
        assert(enc_char(c) + Seq::<u8>::empty() =~= enc_char(c));
        assert(enc_chars(s) + enc_char(c) =~= enc_char(c));
    } else {
        assert(s.push(c)[0] == s[0]);
        assert(s.push(c).drop_first() =~= s.drop_first().push(c));
        lemma_enc_chars_push(s.drop_first(), c);
        lemma_add_assoc(enc_char(s[0]), enc_chars(s.drop_first()), enc_char(c));
    }
}

proof fn lemma_enc_hists_push(s: Seq<PackageHistoryView>, h: PackageHistoryView)
    ensures
        enc_hists(s.push(h)) == enc_hists(s) + enc_hist(h),
    decreases s.len(),
{
    if s.len() == 0 {
        assert(s.push(h)[0] == h);
        assert(s.push(h).drop_first() =~= Seq::<PackageHistoryView>::empty());
        assert(enc_hists(Seq::<PackageHistoryView>::empty()) == Seq::<u8>::empty());
        assert(enc_hist(h) + Seq::<u8>::empty() =~= enc_hist(h));
        assert(enc_hists(s) + enc_hist(h) =~= enc_hist(h));
    } else {
        assert(s.push(h)[0] == s[0]);
        assert(s.push(h).drop_first() =~= s.drop_first().push(h));
        lemma_enc_hists_push(s.drop_first(), h);
        lemma_add_assoc(enc_hist(s[0]), enc_hists(s.drop_first()), enc_hist(h));
    }
}

proof fn lemma_enc_deps_push(s: Seq<DependencyView>, d: DependencyView)
    ensures
        enc_deps(s.push(d)) == enc_deps(s) + enc_dep(d),
    decreases s.len(),
{
    if s.len() == 0 {
        assert(s.push(d)[0] == d);
        assert(s.push(d).drop_first() =~= Seq::<DependencyView>::empty());
        assert(enc_deps(Seq::<DependencyView>::empty()) == Seq::<u8>::empty());
        assert(enc_dep(d) + Seq::<u8>::empty() =~= enc_dep(d));
        assert(enc_deps(s) + enc_dep(d) =~= enc_dep(d));
    } else {
        assert(s.push(d)[0] == s[0]);
        assert(s.push(d).drop_first() =~= s.drop_first().push(d));
        lemma_enc_deps_push(s.drop_first(), d);
        lemma_add_assoc(enc_dep(s[0]), enc_deps(s.drop_first()), enc_dep(d));
    }
}

proof fn lemma_enc_recs_push(s: Seq<PackageInfoView>, r: PackageInfoView)
    ensures
        enc_recs(s.push(r)) == enc_recs(s) + enc_record(r),
    decreases s.len(),
{
    if s.len() == 0 {
        assert(s.push(r)[0] == r);
        assert(s.push(r).drop_first() =~= Seq::<PackageInfoView>::empty());
        assert(enc_recs(Seq::<PackageInfoView>::empty()) == Seq::<u8>::empty());
        assert(enc_record(r) + Seq::<u8>::empty() =~= enc_record(r));
        assert(enc_recs(s) + enc_record(r) =~= enc_record(r));
    } else {
        assert(s.push(r)[0] == s[0]);
        assert(s.push(r).drop_first() =~= s.drop_first().push(r));
        lemma_enc_recs_push(s.drop_first(), r);
        lemma_add_assoc(enc_record(s[0]), enc_recs(s.drop_first()), enc_record(r));
    }
}

// ---------------------------------------------------------------------------
// the encoder
// ---------------------------------------------------------------------------

fn write_u64(out: &mut Vec<u8>, v: u64)
    ensures
        final(out)@ == old(out)@ + enc_u64(v),
{
    let mut b = vstd::bytes::u64_to_le_bytes(v);
    out.append(&mut b);
}

fn write_u32(out: &mut Vec<u8>, v: u32)
    ensures
        final(out)@ == old(out)@ + enc_u32(v),
{
    write_u64(out, v as u64);
}

fn write_str(out: &mut Vec<u8>, s: &str)
    ensures
        final(out)@ == old(out)@ + enc_str(s@),
{
    let n = s.unicode_len();
    write_u64(out, n as u64);
    let mut i: usize = 0;
    while i < n
        invariant
            n == s@.len(),
            i <= n,
            out@ == old(out)@ + enc_u64(n as u64) + enc_chars(s@.take(i as int)),
        decreases n - i,
    {
        let c = s.get_char(i);
        let ghost pref = s@.take(i as int);
        write_u64(out, c as u64);
        proof {
            assert(s@.take(i + 1) =~= pref.push(s@[i as int]));
            lemma_enc_chars_push(pref, s@[i as int]);
            lemma_add_assoc(old(out)@ + enc_u64(n as u64), enc_chars(pref), enc_char(s@[i as int]));
        }
        i = i + 1;
    }
    proof {
        assert(s@.take(n as int) =~= s@);
        lemma_add_assoc(old(out)@, enc_u64(n as u64), enc_chars(s@));
    }
}

fn write_opt_str(out: &mut Vec<u8>, o: &Option<String>)
    ensures
        final(out)@ == old(out)@ + enc_opt_str(
            match *o {
                Some(v) => Some(v@),
                None => None,
            },
        ),
{
    match o {
        None => {
            write_u64(out, 0);
        },
        Some(v) => {
            write_u64(out, 1);
            write_str(out, v.as_str());
            proof {
                lemma_add_assoc(old(out)@, enc_u64(1), enc_str(v@));
            }
        },
    }
}

fn write_opt_u32(out: &mut Vec<u8>, o: &Option<u32>)
    ensures
        final(out)@ == old(out)@ + enc_opt_u32(*o),
{
    match o {
        None => {
            write_u64(out, 0);
        },
        Some(v) => {
            write_u64(out, 1);
            write_u32(out, *v);
            proof {
                lemma_add_assoc(old(out)@, enc_u64(1), enc_u32(*v));
            }
        },
    }
}

fn write_source(out: &mut Vec<u8>, s: &Source)
    ensures
        final(out)@ == old(out)@ + enc_source(s@),
{
    write_str(out, s.name.as_str());
    write_str(out, s.homepage.as_str());
    proof {
        lemma_add_assoc(old(out)@, enc_str(s.name@), enc_str(s.homepage@));
    }
}

fn write_opt_source(out: &mut Vec<u8>, o: &Option<Source>)
    ensures
        final(out)@ == old(out)@ + enc_opt_source(
            match *o {
                Some(v) => Some(v@),
                None => None,
            },
        ),
{
    match o {
        None => {
            write_u64(out, 0);
        },
        Some(v) => {
            write_u64(out, 1);
            write_source(out, v);
            proof {
                lemma_add_assoc(old(out)@, enc_u64(1), enc_source(v@));
            }
        },
    }
}

fn write_hist(out: &mut Vec<u8>, h: &PackageHistory)
    ensures
        final(out)@ == old(out)@ + enc_hist(h@),
{
    write_str(out, h.version.as_str());
    write_u32(out, h.release);
    write_str(out, h.date.as_str());
    proof {
        lemma_add_assoc(old(out)@, enc_str(h.version@), enc_u32(h.release));
        lemma_add_assoc(old(out)@, enc_str(h.version@) + enc_u32(h.release), enc_str(h.date@));
    }
}

fn write_hist_list(out: &mut Vec<u8>, v: &Vec<PackageHistory>)
    ensures
        final(out)@ == old(out)@ + enc_hist_list(history_views(v@)),
{
    let n = v.len();
    write_u64(out, n as u64);
    let mut i: usize = 0;
    while i < n
        invariant
            n == v@.len(),
            i <= n,
            out@ == old(out)@ + enc_u64(n as u64) + enc_hists(history_views(v@).take(i as int)),
        decreases n - i,
    {
        let ghost pref = history_views(v@).take(i as int);
        write_hist(out, &v[i]);
        proof {
            assert(history_views(v@).take(i + 1) =~= pref.push(v@[i as int]@));
            lemma_enc_hists_push(pref, v@[i as int]@);
            lemma_add_assoc(old(out)@ + enc_u64(n as u64), enc_hists(pref), enc_hist(v@[i as int]@));
        }
        i = i + 1;
    }
    proof {
        assert(history_views(v@).take(n as int) =~= history_views(v@));
        assert(history_views(v@).len() == n);
        lemma_add_assoc(old(out)@, enc_u64(n as u64), enc_hists(history_views(v@)));
    }
}

fn write_dep(out: &mut Vec<u8>, d: &Dependency)
    ensures
        final(out)@ == old(out)@ + enc_dep(d@),
{
    write_str(out, d.name.as_str());
    write_opt_str(out, &d.version);
    write_opt_u32(out, &d.release);
    proof {
        lemma_add_assoc(old(out)@, enc_str(d.name@), enc_opt_str(d@.version));
        lemma_add_assoc(old(out)@, enc_str(d.name@) + enc_opt_str(d@.version), enc_opt_u32(d@.release));
    }
}

fn write_dep_list(out: &mut Vec<u8>, v: &Vec<Dependency>)
    ensures
        final(out)@ == old(out)@ + enc_dep_list(dep_views(v@)),
{
    let n = v.len();
    write_u64(out, n as u64);
    let mut i: usize = 0;
    while i < n
        invariant
            n == v@.len(),
            i <= n,
            out@ == old(out)@ + enc_u64(n as u64) + enc_deps(dep_views(v@).take(i as int)),
        decreases n - i,
    {
        let ghost pref = dep_views(v@).take(i as int);
        write_dep(out, &v[i]);
        proof {
            assert(dep_views(v@).take(i + 1) =~= pref.push(v@[i as int]@));
            lemma_enc_deps_push(pref, v@[i as int]@);
            lemma_add_assoc(old(out)@ + enc_u64(n as u64), enc_deps(pref), enc_dep(v@[i as int]@));
        }
        i = i + 1;
    }
    proof {
        assert(dep_views(v@).take(n as int) =~= dep_views(v@));
        assert(dep_views(v@).len() == n);
        lemma_add_assoc(old(out)@, enc_u64(n as u64), enc_deps(dep_views(v@)));
    }
}

#[verifier::rlimit(100)]
#[verifier::spinoff_prover]
fn write_record(out: &mut Vec<u8>, r: &PackageInfo)
    ensures
        final(out)@ == old(out)@ + enc_record(r@),
{
    write_str(out, r.name.as_str());
    write_str(out, r.summary.as_str());
    write_str(out, r.description.as_str());
    write_str(out, r.version.as_str());
    write_u32(out, r.release);
    write_str(out, r.license.as_str());
    write_str(out, r.part_of.as_str());
    write_u64(out, r.package_size);
    write_u64(out, r.installed_size);
    write_str(out, r.package_format.as_str());
    write_str(out, r.distribution.as_str());
    write_str(out, r.distribution_release.as_str());
    write_str(out, r.architecture.as_str());
    write_opt_source(out, &r.source);
    write_hist_list(out, &r.history);
    write_dep_list(out, &r.dependencies);
    proof {
        let e1 = enc_str(r@.name);
        let e2 = enc_str(r@.summary);
        let e3 = enc_str(r@.description);
        let e4 = enc_str(r@.version);
        let e5 = enc_u32(r@.release);
        let e6 = enc_str(r@.license);
        let e7 = enc_str(r@.part_of);
        let e8 = enc_u64(r@.package_size);
        let e9 = enc_u64(r@.installed_size);
        let e10 = enc_str(r@.package_format);
        let e11 = enc_str(r@.distribution);
        let e12 = enc_str(r@.distribution_release);
        let e13 = enc_str(r@.architecture);
        let e14 = enc_opt_source(r@.source);
        let e15 = enc_hist_list(r@.history);
        let e16 = enc_dep_list(r@.dependencies);
        let t16 = e16;
        let t15 = e15 + t16;
        let t14 = e14 + t15;
        let t13 = e13 + t14;
        let t12 = e12 + t13;
        let t11 = e11 + t12;
        let t10 = e10 + t11;
        let t9 = e9 + t10;
        let t8 = e8 + t9;
        let t7 = e7 + t8;
        let t6 = e6 + t7;
        let t5 = e5 + t6;
        let t4 = e4 + t5;
        let t3 = e3 + t4;
        let t2 = e2 + t3;
        let t1 = e1 + t2;
        assert(enc_record(r@) == t1);
        let a0 = old(out)@;
        let a1 = a0 + e1;
        let a2 = a1 + e2;
        let a3 = a2 + e3;
        let a4 = a3 + e4;
        let a5 = a4 + e5;
        let a6 = a5 + e6;
        let a7 = a6 + e7;
        let a8 = a7 + e8;
        let a9 = a8 + e9;
        let a10 = a9 + e10;
        let a11 = a10 + e11;
        let a12 = a11 + e12;
        let a13 = a12 + e13;
        let a14 = a13 + e14;
        let a15 = a14 + e15;
        let a16 = a15 + e16;
        assert(out@ == a16);
        assert(a16 == a15 + t16);
        lemma_add_assoc(a14, e15, t16);
        assert(a16 == a14 + t15);
        lemma_add_assoc(a13, e14, t15);
        assert(a16 == a13 + t14);
        lemma_add_assoc(a12, e13, t14);
        assert(a16 == a12 + t13);
        lemma_add_assoc(a11, e12, t13);
        assert(a16 == a11 + t12);
        lemma_add_assoc(a10, e11, t12);
        assert(a16 == a10 + t11);
        lemma_add_assoc(a9, e10, t11);
        assert(a16 == a9 + t10);
        lemma_add_assoc(a8, e9, t10);
        assert(a16 == a8 + t9);
        lemma_add_assoc(a7, e8, t9);
        assert(a16 == a7 + t8);
        lemma_add_assoc(a6, e7, t8);
        assert(a16 == a6 + t7);
        lemma_add_assoc(a5, e6, t7);
        assert(a16 == a5 + t6);
        lemma_add_assoc(a4, e5, t6);
        assert(a16 == a4 + t5);
        lemma_add_assoc(a3, e4, t5);
        assert(a16 == a3 + t4);
        lemma_add_assoc(a2, e3, t4);
        assert(a16 == a2 + t3);
        lemma_add_assoc(a1, e2, t3);
        assert(a16 == a1 + t2);
        lemma_add_assoc(a0, e1, t2);
        assert(a16 == a0 + t1);
    }
}

/// Encode a record set into the snapshot stream.
pub fn encode_records(records: &Vec<PackageInfo>) -> (r: Vec<u8>)
    ensures
        r@ == spec_encode(records_view(records@)),
{
    let n = records.len();
    let mut out: Vec<u8> = Vec::new();
    write_u64(&mut out, n as u64);
    proof {
        assert(Seq::<u8>::empty() + enc_u64(n as u64) =~= enc_u64(n as u64));
    }
    let mut i: usize = 0;
    while i < n
        invariant
            n == records@.len(),
            i <= n,
            out@ == enc_u64(n as u64) + enc_recs(records_view(records@).take(i as int)),
        decreases n - i,
    {
        let ghost pref = records_view(records@).take(i as int);
        write_record(&mut out, &records[i]);
        proof {
            assert(records_view(records@).take(i + 1) =~= pref.push(records@[i as int]@));
            lemma_enc_recs_push(pref, records@[i as int]@);
            lemma_add_assoc(enc_u64(n as u64), enc_recs(pref), enc_record(records@[i as int]@));
        }
        i = i + 1;
    }
    proof {
        assert(records_view(records@).take(n as int) =~= records_view(records@));
        assert(records_view(records@).len() == n);
    }
    out
}


// ---------------------------------------------------------------------------
// the decoder
// ---------------------------------------------------------------------------

/// Relies on `char::from_u32`: yields the character with the given scalar
/// value, and `None` exactly for surrogates and values above the maximum
/// code point.
pub assume_specification[ char::from_u32 ](v: u32) -> (r: Option<char>)
    ensures
        r is Some <==> (v < 0xD800 || (0xDFFF < v && v <= 0x10FFFF)),
        r matches Some(c) ==> c as u32 == v,
;

fn read_u64(s: &Vec<u8>, pos: usize) -> (r: Option<(u64, usize)>)
    ensures
        match r {
            Some((v, p)) => dec_u64(s@, pos as int) == Some((v, p as int)),
            None => dec_u64(s@, pos as int) is None,
        },
{
    if pos <= s.len() && s.len() - pos >= 8 {
        let sub = vstd::slice::slice_subrange(s.as_slice(), pos, pos + 8);
        let v = vstd::bytes::u64_from_le_bytes(sub);
        Some((v, pos + 8))
    } else {
        None
    }
}

fn read_u32(s: &Vec<u8>, pos: usize) -> (r: Option<(u32, usize)>)
    ensures
        match r {
            Some((v, p)) => dec_u32(s@, pos as int) == Some((v, p as int)),
            None => dec_u32(s@, pos as int) is None,
        },
{
    match read_u64(s, pos) {
        Some((v, p)) => {
            if v <= 0xFFFF_FFFF {
                Some((v as u32, p))
            } else {
                None
            }
        },
        None => None,
    }
}

fn read_char(s: &Vec<u8>, pos: usize) -> (r: Option<(char, usize)>)
    ensures
        match r {
            Some((c, p)) => dec_char(s@, pos as int) == Some((c, p as int)),
            None => dec_char(s@, pos as int) is None,
        },
{
    match read_u64(s, pos) {
        Some((v, p)) => {
            if v < 0xD800 || (0xDFFF < v && v <= 0x10FFFF) {
                match char::from_u32(v as u32) {
                    Some(c) => {
                        proof {
                            vstd::utf8::char_u32_cast(c, v as u32);
                        }
                        Some((c, p))
                    },
                    None => {
                        proof {
                            assert(false);
                        }
                        None
                    },
                }
            } else {
                None
            }
        },
        None => None,
    }
}

fn read_str(s: &Vec<u8>, pos: usize) -> (r: Option<(String, usize)>)
    ensures
        match r {
            Some((v, p)) => dec_str(s@, pos as int) == Some((v@, p as int)),
            None => dec_str(s@, pos as int) is None,
        },
{
    let (n, p0) = match read_u64(s, pos) {
        Some(x) => x,
        None => {
            return None;
        },
    };
    let mut acc = String::new();
    let mut cur: usize = p0;
    let mut j: u64 = 0;
    proof {
        assert(dec_chars(s@, p0 as int, n as nat) matches Some((cs, q))
            ==> Seq::<char>::empty() + cs =~= cs);
    }
    while j < n
        invariant
            j <= n,
            dec_u64(s@, pos as int) == Some((n, p0 as int)),
            match dec_chars(s@, cur as int, (n - j) as nat) {
                Some((cs, q)) => dec_chars(s@, p0 as int, n as nat) == Some((acc@ + cs, q)),
                None => dec_chars(s@, p0 as int, n as nat) is None,
            },
        decreases n - j,
    {
        let (c, p2) = match read_char(s, cur) {
            Some(x) => x,
            None => {
                return None;
            },
        };
        let ghost acc0 = acc@;
        acc.push(c);
        proof {
            assert(((n - j) as nat - 1) == (n - (j + 1)) as nat);
            assert(dec_chars(s@, p2 as int, (n - (j + 1)) as nat) matches Some((cs2, q))
                ==> acc0 + (seq![c] + cs2) =~= acc0.push(c) + cs2);
        }
        cur = p2;
        j = j + 1;
    }
    proof {
        assert(acc@ + Seq::<char>::empty() =~= acc@);
    }
    Some((acc, cur))
}

fn read_opt_str(s: &Vec<u8>, pos: usize) -> (r: Option<(Option<String>, usize)>)
    ensures
        match r {
            Some((o, p)) => dec_opt_str(s@, pos as int) == Some(
                (
                    match o {
                        Some(v) => Some(v@),
                        None => None,
                    },
                    p as int,
                ),
            ),
            None => dec_opt_str(s@, pos as int) is None,
        },
{
    let (f, p) = match read_u64(s, pos) {
        Some(x) => x,
        None => {
            return None;
        },
    };
    if f == 0 {
        Some((None, p))
    } else if f == 1 {
        match read_str(s, p) {
            Some((v, p2)) => Some((Some(v), p2)),
            None => None,
        }
    } else {
        None
    }
}

fn read_opt_u32(s: &Vec<u8>, pos: usize) -> (r: Option<(Option<u32>, usize)>)
    ensures
        match r {
            Some((o, p)) => dec_opt_u32(s@, pos as int) == Some((o, p as int)),
            None => dec_opt_u32(s@, pos as int) is None,
        },
{
    let (f, p) = match read_u64(s, pos) {
        Some(x) => x,
        None => {
            return None;
        },
    };
    if f == 0 {
        Some((None, p))
    } else if f == 1 {
        match read_u32(s, p) {
            Some((v, p2)) => Some((Some(v), p2)),
            None => None,
        }
    } else {
        None
    }
}

fn read_source(s: &Vec<u8>, pos: usize) -> (r: Option<(Source, usize)>)
    ensures
        match r {
            Some((v, p)) => dec_source(s@, pos as int) == Some((v@, p as int)),
            None => dec_source(s@, pos as int) is None,
        },
{
    let (name, p1) = match read_str(s, pos) {
        Some(x) => x,
        None => {
            return None;
        },
    };
    let (homepage, p2) = match read_str(s, p1) {
        Some(x) => x,
        None => {
            return None;
        },
    };
    Some((Source { name, homepage }, p2))
}

fn read_opt_source(s: &Vec<u8>, pos: usize) -> (r: Option<(Option<Source>, usize)>)
    ensures
        match r {
            Some((o, p)) => dec_opt_source(s@, pos as int) == Some(
                (
                    match o {
                        Some(v) => Some(v@),
                        None => None,
                    },
                    p as int,
                ),
            ),
            None => dec_opt_source(s@, pos as int) is None,
        },
{
    let (f, p) = match read_u64(s, pos) {
        Some(x) => x,
        None => {
            return None;
        },
    };
    if f == 0 {
        Some((None, p))
    } else if f == 1 {
        match read_source(s, p) {
            Some((v, p2)) => Some((Some(v), p2)),
            None => None,
        }
    } else {
        None
    }
}

fn read_hist(s: &Vec<u8>, pos: usize) -> (r: Option<(PackageHistory, usize)>)
    ensures
        match r {
            Some((v, p)) => dec_hist(s@, pos as int) == Some((v@, p as int)),
            None => dec_hist(s@, pos as int) is None,
        },
{
    let (version, p1) = match read_str(s, pos) {
        Some(x) => x,
        None => {
            return None;
        },
    };
    let (release, p2) = match read_u32(s, p1) {
        Some(x) => x,
        None => {
            return None;
        },
    };
    let (date, p3) = match read_str(s, p2) {
        Some(x) => x,
        None => {
            return None;
        },
    };
    Some((PackageHistory { version, release, date }, p3))
}

fn read_hist_list(s: &Vec<u8>, pos: usize) -> (r: Option<(Vec<PackageHistory>, usize)>)
    ensures
        match r {
            Some((v, p)) => dec_hist_list(s@, pos as int) == Some((history_views(v@), p as int)),
            None => dec_hist_list(s@, pos as int) is None,
        },
{
    let (n, p0) = match read_u64(s, pos) {
        Some(x) => x,
        None => {
            return None;
        },
    };
    let mut acc: Vec<PackageHistory> = Vec::new();
    let mut cur: usize = p0;
    let mut j: u64 = 0;
    proof {
        assert(history_views(acc@) =~= Seq::<PackageHistoryView>::empty());
        assert(dec_hists(s@, p0 as int, n as nat) matches Some((hs, q))
            ==> Seq::<PackageHistoryView>::empty() + hs =~= hs);
    }
    while j < n
        invariant
            j <= n,
            dec_u64(s@, pos as int) == Some((n, p0 as int)),
            match dec_hists(s@, cur as int, (n - j) as nat) {
                Some((hs, q)) => dec_hists(s@, p0 as int, n as nat) == Some(
                    (history_views(acc@) + hs, q),
                ),
                None => dec_hists(s@, p0 as int, n as nat) is None,
            },
        decreases n - j,
    {
        let (h, p2) = match read_hist(s, cur) {
            Some(x) => x,
            None => {
                return None;
            },
        };
        let ghost acc0 = history_views(acc@);
        let ghost hv = h@;
        acc.push(h);
        proof {
            assert(history_views(acc@) =~= acc0.push(hv));
            assert(((n - j) as nat - 1) == (n - (j + 1)) as nat);
            assert(dec_hists(s@, p2 as int, (n - (j + 1)) as nat) matches Some((hs2, q))
                ==> acc0 + (seq![hv] + hs2) =~= acc0.push(hv) + hs2);
        }
        cur = p2;
        j = j + 1;
    }
    proof {
        assert(history_views(acc@) + Seq::<PackageHistoryView>::empty() =~= history_views(acc@));
    }
    Some((acc, cur))
}

fn read_dep(s: &Vec<u8>, pos: usize) -> (r: Option<(Dependency, usize)>)
    ensures
        match r {
            Some((v, p)) => dec_dep(s@, pos as int) == Some((v@, p as int)),
            None => dec_dep(s@, pos as int) is None,
        },
{
    let (name, p1) = match read_str(s, pos) {
        Some(x) => x,
        None => {
            return None;
        },
    };
    let (version, p2) = match read_opt_str(s, p1) {
        Some(x) => x,
        None => {
            return None;
        },
    };
    let (release, p3) = match read_opt_u32(s, p2) {
        Some(x) => x,
        None => {
            return None;
        },
    };
    Some((Dependency { name, version, release }, p3))
}

fn read_dep_list(s: &Vec<u8>, pos: usize) -> (r: Option<(Vec<Dependency>, usize)>)
    ensures
        match r {
            Some((v, p)) => dec_dep_list(s@, pos as int) == Some((dep_views(v@), p as int)),
            None => dec_dep_list(s@, pos as int) is None,
        },
{
    let (n, p0) = match read_u64(s, pos) {
        Some(x) => x,
        None => {
            return None;
        },
    };
    let mut acc: Vec<Dependency> = Vec::new();
    let mut cur: usize = p0;
    let mut j: u64 = 0;
    proof {
        assert(dep_views(acc@) =~= Seq::<DependencyView>::empty());
        assert(dec_deps(s@, p0 as int, n as nat) matches Some((ds, q))
            ==> Seq::<DependencyView>::empty() + ds =~= ds);
    }
    while j < n
        invariant
            j <= n,
            dec_u64(s@, pos as int) == Some((n, p0 as int)),
            match dec_deps(s@, cur as int, (n - j) as nat) {
                Some((ds, q)) => dec_deps(s@, p0 as int, n as nat) == Some(
                    (dep_views(acc@) + ds, q),
                ),
                None => dec_deps(s@, p0 as int, n as nat) is None,
            },
        decreases n - j,
    {
        let (d, p2) = match read_dep(s, cur) {
            Some(x) => x,
            None => {
                return None;
            },
        };
        let ghost acc0 = dep_views(acc@);
        let ghost dv = d@;
        acc.push(d);
        proof {
            assert(dep_views(acc@) =~= acc0.push(dv));
            assert(((n - j) as nat - 1) == (n - (j + 1)) as nat);
            assert(dec_deps(s@, p2 as int, (n - (j + 1)) as nat) matches Some((ds2, q))
                ==> acc0 + (seq![dv] + ds2) =~= acc0.push(dv) + ds2);
        }
        cur = p2;
        j = j + 1;
    }
    proof {
        assert(dep_views(acc@) + Seq::<DependencyView>::empty() =~= dep_views(acc@));
    }
    Some((acc, cur))
}

#[verifier::rlimit(100)]
#[verifier::spinoff_prover]
fn read_record(s: &Vec<u8>, pos: usize) -> (r: Option<(PackageInfo, usize)>)
    ensures
        match r {
            Some((v, p)) => dec_record(s@, pos as int) == Some((v@, p as int)),
            None => dec_record(s@, pos as int) is None,
        },
{
    let (name, p1) = match read_str(s, pos) {
        Some(x) => x,
        None => {
            return None;
        },
    };
    let (summary, p2) = match read_str(s, p1) {
        Some(x) => x,
        None => {
            return None;
        },
    };
    let (description, p3) = match read_str(s, p2) {
        Some(x) => x,
        None => {
            return None;
        },
    };
    let (version, p4) = match read_str(s, p3) {
        Some(x) => x,
        None => {
            return None;
        },
    };
    let (release, p5) = match read_u32(s, p4) {
        Some(x) => x,
        None => {
            return None;
        },
    };
    let (license, p6) = match read_str(s, p5) {
        Some(x) => x,
        None => {
            return None;
        },
    };
    let (part_of, p7) = match read_str(s, p6) {
        Some(x) => x,
        None => {
            return None;
        },
    };
    let (package_size, p8) = match read_u64(s, p7) {
        Some(x) => x,
        None => {
            return None;
        },
    };
    let (installed_size, p9) = match read_u64(s, p8) {
        Some(x) => x,
        None => {
            return None;
        },
    };
    let (package_format, p10) = match read_str(s, p9) {
        Some(x) => x,
        None => {
            return None;
        },
    };
    let (distribution, p11) = match read_str(s, p10) {
        Some(x) => x,
        None => {
            return None;
        },
    };
    let (distribution_release, p12) = match read_str(s, p11) {
        Some(x) => x,
        None => {
            return None;
        },
    };
    let (architecture, p13) = match read_str(s, p12) {
        Some(x) => x,
        None => {
            return None;
        },
    };
    let (source, p14) = match read_opt_source(s, p13) {
        Some(x) => x,
        None => {
            return None;
        },
    };
    let (history, p15) = match read_hist_list(s, p14) {
        Some(x) => x,
        None => {
            return None;
        },
    };
    let (dependencies, p16) = match read_dep_list(s, p15) {
        Some(x) => x,
        None => {
            return None;
        },
    };
    let rec = PackageInfo { name, summary, description, version, release, license, part_of, package_size, installed_size, package_format, distribution, distribution_release, architecture, source, history, dependencies };
    proof {
        assert(dec_record(s@, pos as int) == Some((rec@, p16 as int)));
    }
    Some((rec, p16))
}

/// Decode a snapshot stream back into its record set; `None` when the stream
/// is not a whole, well-formed encoding.
pub fn decode_records(bytes: &Vec<u8>) -> (r: Option<Vec<PackageInfo>>)
    ensures
        match r {
            Some(v) => spec_decode(bytes@) == Some(records_view(v@)),
            None => spec_decode(bytes@) is None,
        },
{
    let (n, p0) = match read_u64(bytes, 0) {
        Some(x) => x,
        None => {
            return None;
        },
    };
    let mut acc: Vec<PackageInfo> = Vec::new();
    let mut cur: usize = p0;
    let mut j: u64 = 0;
    proof {
        assert(records_view(acc@) =~= Seq::<PackageInfoView>::empty());
        assert(dec_recs(bytes@, p0 as int, n as nat) matches Some((rs, q))
            ==> Seq::<PackageInfoView>::empty() + rs =~= rs);
    }
    while j < n
        invariant
            j <= n,
            dec_u64(bytes@, 0) == Some((n, p0 as int)),
            match dec_recs(bytes@, cur as int, (n - j) as nat) {
                Some((rs, q)) => dec_recs(bytes@, p0 as int, n as nat) == Some(
                    (records_view(acc@) + rs, q),
                ),
                None => dec_recs(bytes@, p0 as int, n as nat) is None,
            },
        decreases n - j,
    {
        let (rec, p2) = match read_record(bytes, cur) {
            Some(x) => x,
            None => {
                return None;
            },
        };
        let ghost acc0 = records_view(acc@);
        let ghost rv = rec@;
        acc.push(rec);
        proof {
            assert(records_view(acc@) =~= acc0.push(rv));
            assert(((n - j) as nat - 1) == (n - (j + 1)) as nat);
            assert(dec_recs(bytes@, p2 as int, (n - (j + 1)) as nat) matches Some((rs2, q))
                ==> acc0 + (seq![rv] + rs2) =~= acc0.push(rv) + rs2);
        }
        cur = p2;
        j = j + 1;
    }
    proof {
        assert(records_view(acc@) + Seq::<PackageInfoView>::empty() =~= records_view(acc@));
    }
    if cur == bytes.len() {
        Some(acc)
    } else {
        None
    }
}

} // verus!
