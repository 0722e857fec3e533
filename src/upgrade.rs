use vstd::prelude::*;

use crate::error::Version;
use crate::log::{LogShard, LogView};
use crate::update::{views, StateUpdate, UpdateView};

verus! {

/// Whether code at `code` can read data written at `data`: one minor version of
/// forward compatibility, any patch.
pub open spec fn data_version_compatible(code: Version, data: Version) -> bool {
    let max_minor: int = if code.minor == u64::MAX {
        u64::MAX as int
    } else {
        code.minor + 1
    };
    data.major < code.major || (data.major == code.major && data.minor <= max_minor)
}

/// Whether code at `code_version` can read data at `data_version`: the data
/// may be at most one minor version ahead.
pub fn check_data_version(code_version: &Version, data_version: &Version) -> (r: bool)
    ensures
        r == data_version_compatible(*code_version, *data_version),
{
    let max_minor = if code_version.minor == u64::MAX {
        u64::MAX
    } else {
        code_version.minor + 1
    };
    data_version.major < code_version.major || (data_version.major == code_version.major
        && data_version.minor <= max_minor)
}

/// Records `version` as the version of the code that writes to the upgrade
/// shard, by an empty conditional append at the shard's own upper.
pub fn increment_catalog_upgrade_shard_version(upgrade_log: &mut LogShard, version: Version)
    requires
        old(upgrade_log).wf(),
        old(upgrade_log).upper < u64::MAX,
    ensures
        final(upgrade_log).wf(),
        final(upgrade_log)@ == (LogView {
            upper: (old(upgrade_log).upper + 1) as u64,
            applier_version: Some(version),
            ..old(upgrade_log)@
        }),
{
    let upper = upgrade_log.fetch_recent_upper();
    let none: Vec<StateUpdate> = Vec::new();
    assert(views(none@) =~= Seq::<UpdateView>::empty());
    let r = upgrade_log.compare_and_append(none, upper, upper + 1, version);
    assert(old(upgrade_log)@.updates + Seq::<UpdateView>::empty() =~= old(upgrade_log)@.updates);
}

} // verus!
