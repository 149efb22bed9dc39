//! Summary counts shown on the overview screen.

use vstd::prelude::*;

verus! {

/// How many packages are known, installed, merely available, and upgradable.
#[derive(Debug, Clone, PartialEq)]
pub struct PackageStats {
    pub total_count: usize,
    pub installed_count: usize,
    pub available_count: usize,
    pub updates_count: usize,
}

/// Combine the tier counts: the available count is the total less the
/// installed, floored at zero.
pub fn get_package_stats(total_count: usize, installed_count: usize, updates_count: usize) -> (s:
    PackageStats)
    ensures
        s.total_count == total_count,
        s.installed_count == installed_count,
        s.updates_count == updates_count,
        s.available_count == (if total_count > installed_count {
            total_count - installed_count
        } else {
            0
        }),
{
    let available_count: usize = if total_count > installed_count {
        total_count - installed_count
    } else {
        0
    };
    PackageStats { total_count, installed_count, available_count, updates_count }
}

} // verus!
