//! Dispatch planning and result collection for triggering a hotkey on every
//! live instance of an asset.
//!
//! The plan is one trigger command per live instance; the caller issues the
//! commands concurrently and hands back one outcome per command. Each
//! command's report is paired with its own outcome alone, so one instance's
//! failure cannot alter another's report.

use vstd::prelude::*;

use crate::instances;

verus! {

/// One trigger request: the hotkey to fire and the instance to fire it on.
#[derive(Debug)]
pub struct TriggerCommand {
    pub hotkey_id: String,
    pub instance_id: String,
}

/// Outcome of one dispatched command, as the caller observed it.
#[derive(Debug)]
pub enum DispatchOutcome {
    Delivered,
    Failed(String),
}
/// The report pairs each command with its own outcome, index by index.
pub open spec fn spec_report(
    cmds: Seq<(Seq<char>, Seq<char>)>,
    outcomes: Seq<DispatchOutcome>,
) -> Seq<((Seq<char>, Seq<char>), DispatchOutcome)>
    recommends
        cmds.len() == outcomes.len(),
{
    Seq::new(cmds.len(), |i: int| (cmds[i], outcomes[i]))
}

/// Plans the dispatch of `hotkey_id` to every live instance of
/// `asset_file_name`: one command per instance, in index order, and no
/// command at all for an asset with no live instance.
pub fn plan_dispatch(
    index: &Vec<(String, Vec<String>)>,
    asset_file_name: &str,
    hotkey_id: &str,
) -> (r: Vec<TriggerCommand>)
    ensures
        (match instances::find_group(instances::index_view(index@), asset_file_name@) {
            Some(g) => r@.len() == instances::index_view(index@)[g].1.len() && (forall|k: int|
                0 <= k < r@.len() ==> (#[trigger] r@[k]).hotkey_id@ == hotkey_id@
                    && r@[k].instance_id@ == instances::index_view(index@)[g].1[k]),
            None => r@.len() == 0,
        }),
{
    let mut r: Vec<TriggerCommand> = Vec::new();
    let ids = match instances::lookup_instances(index, asset_file_name) {
        Some(ids) => ids,
        None => {
            return r;
        },
    };
    let ghost target = instances::ids_view(ids@);
    let mut k: usize = 0;
    while k < ids.len()
        invariant
            k <= ids@.len(),
            target == instances::ids_view(ids@),
            r@.len() == k,
            forall|j: int|
                0 <= j < k ==> (#[trigger] r@[j]).hotkey_id@ == hotkey_id@ && r@[j].instance_id@
                    == target[j],
        decreases ids@.len() - k,
    {
        let cmd = TriggerCommand {
            hotkey_id: String::from_str(hotkey_id),
            instance_id: ids[k].clone(),
        };
        r.push(cmd);
        k = k + 1;
    }
    r
}

/// Pairs each issued command with its own outcome, index by index, as
/// [`spec_report`] describes.
pub fn collect_outcomes(commands: Vec<TriggerCommand>, outcomes: Vec<DispatchOutcome>) -> (r: Vec<
    (TriggerCommand, DispatchOutcome),
>)
    requires
        commands@.len() == outcomes@.len(),
    ensures
        r@.len() == commands@.len(),
        forall|k: int|
            0 <= k < r@.len() ==> #[trigger] r@[k] == (commands@[k], outcomes@[k]),
{
    let ghost cmds_snap = commands@;
    let ghost outs_snap = outcomes@;
    let mut commands = commands;
    let mut outcomes = outcomes;
    let mut r: Vec<(TriggerCommand, DispatchOutcome)> = Vec::new();
    while commands.len() > 0
        invariant
            commands@.len() == outcomes@.len(),
            commands@ == cmds_snap.subrange(0, commands@.len() as int),
            outcomes@ == outs_snap.subrange(0, outcomes@.len() as int),
            cmds_snap.len() == outs_snap.len(),
            r@.len() + commands@.len() == cmds_snap.len(),
            forall|k: int|
                0 <= k < r@.len() ==> #[trigger] r@[k] == (
                    cmds_snap[commands@.len() + k],
                    outs_snap[commands@.len() + k],
                ),
        decreases commands@.len(),
    {
        let c = commands.pop().unwrap();
        let o = outcomes.pop().unwrap();
        proof {
            assert(commands@ =~= cmds_snap.subrange(0, commands@.len() as int));
            assert(outcomes@ =~= outs_snap.subrange(0, outcomes@.len() as int));
        }
        r.insert(0, (c, o));
    }
    r
}

/// Dispatch isolation: the reported outcome of one command depends on its
/// own outcome alone. Two outcome lists that agree at one position yield the
/// same report at that position, whatever happened elsewhere.
pub proof fn lemma_dispatch_isolation(
    cmds: Seq<(Seq<char>, Seq<char>)>,
    first: Seq<DispatchOutcome>,
    second: Seq<DispatchOutcome>,
    i: int,
)
    requires
        first.len() == cmds.len(),
        second.len() == cmds.len(),
        0 <= i < cmds.len(),
        first[i] == second[i],
    ensures
        spec_report(cmds, first)[i] == spec_report(cmds, second)[i],
{
}

} // verus!
