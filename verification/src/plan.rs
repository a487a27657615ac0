//! Plans: the sequences of corrective actions the orchestrators decide on.
//! A plan is executed strictly in order by the surrounding binary; an
//! `Action::Fail` step aborts the run at that point, so everything a plan
//! places after a `Fail` is unreachable (the orchestrators never do).

use vstd::prelude::*;

use crate::SetupError;
use crate::config::{ConfigDoc, ConfigValue};
use crate::text::{dec_str, short_name};

verus! {

/// One corrective step of an orchestration run.
#[derive(Debug, PartialEq)]
pub enum Action {
    /// Write `contents` into the read-ahead control file at `path`; a failure
    /// here is logged and skipped, never fatal.
    SetReadAhead { path: String, contents: String },
    /// Run the external command `argv`; a non-zero exit is fatal.
    Run { argv: Vec<String> },
    /// Overwrite the file at `path` with `contents`; fatal on failure.
    WriteFile { path: String, contents: String },
    /// Serialize `doc` and overwrite the file at `path`; fatal on failure.
    WriteConfig { path: String, doc: ConfigDoc },
    /// Ask the control plane to remove `taint_key` from node `node_name`;
    /// fatal on failure.
    RemoveTaint { node_name: String, taint_key: String },
    /// Abort the run with this diagnostic.
    Fail { error: SetupError },
}

/// The mathematical shape of an `Action`: strings become character
/// sequences, a config document becomes its entry sequence.
#[verifier::ext_equal]
pub enum ActionV {
    SetReadAhead { path: Seq<char>, contents: Seq<char> },
    Run { argv: Seq<Seq<char>> },
    WriteFile { path: Seq<char>, contents: Seq<char> },
    WriteConfig { path: Seq<char>, doc: Seq<(String, ConfigValue)> },
    RemoveTaint { node_name: Seq<char>, taint_key: Seq<char> },
    Fail { error: SetupError },
}

impl DeepView for Action {
    type V = ActionV;

    open spec fn deep_view(&self) -> ActionV {
        match self {
            Action::SetReadAhead { path, contents } => ActionV::SetReadAhead {
                path: path@,
                contents: contents@,
            },
            Action::Run { argv } => ActionV::Run { argv: argv.deep_view() },
            Action::WriteFile { path, contents } => ActionV::WriteFile {
                path: path@,
                contents: contents@,
            },
            Action::WriteConfig { path, doc } => ActionV::WriteConfig {
                path: path@,
                doc: doc.entries@,
            },
            Action::RemoveTaint { node_name, taint_key } => ActionV::RemoveTaint {
                node_name: node_name@,
                taint_key: taint_key@,
            },
            Action::Fail { error } => ActionV::Fail { error: *error },
        }
    }
}

/// The read-ahead control file for the device with short name `name`.
pub open spec fn read_ahead_path(name: Seq<char>) -> Seq<char> {
    "/sys/block/"@ + name + "/queue/read_ahead_kb"@
}

/// The read-ahead tuning step for `device`: write `kb` (in decimal) into the
/// control file derived from the device's short name.
pub open spec fn read_ahead_v(device: Seq<char>, kb: nat) -> ActionV {
    ActionV::SetReadAhead { path: read_ahead_path(short_name(device)), contents: dec_str(kb) }
}

/// One read-ahead tuning step per device, in device order.
pub open spec fn read_ahead_part(devices: Seq<Seq<char>>, kb: nat) -> Seq<ActionV> {
    devices.map_values(|d: Seq<char>| read_ahead_v(d, kb))
}

/// The fatal step carrying `error`.
pub open spec fn fail_v(error: SetupError) -> ActionV {
    ActionV::Fail { error }
}

/// The closing taint-removal step: nothing when removal was not requested, a
/// fatal step when it was requested without a node name, and otherwise the
/// control-plane call.
pub open spec fn taint_part(remove: bool, node: Option<String>, key: Seq<char>) -> Seq<ActionV> {
    if remove {
        match node {
            Some(n) => seq![ActionV::RemoveTaint { node_name: n@, taint_key: key }],
            None => seq![fail_v(SetupError::NodeNameMissing)],
        }
    } else {
        Seq::empty()
    }
}

/// Build the read-ahead tuning action for `device`, as `read_ahead_v`
/// describes.
pub fn read_ahead_action(device: &String, kb: usize) -> (a: Action)
    ensures
        a.deep_view() == read_ahead_v(device@, kb as nat),
{
    let name = crate::text::path_short_name(device.as_str());
    let path = String::from_str("/sys/block/").concat(name).concat("/queue/read_ahead_kb");
    let contents = crate::text::usize_to_string(kb);
    proof {
        assert(path@ =~= read_ahead_path(short_name(device@)));
    }
    Action::SetReadAhead { path, contents }
}

/// Append one step to a plan.
pub fn push_action(plan: &mut Vec<Action>, a: Action)
    ensures
        final(plan).deep_view() == old(plan).deep_view().push(a.deep_view()),
{
    let ghost prev = plan.deep_view();
    let ghost av = a.deep_view();
    plan.push(a);
    proof {
        assert forall|j: int| 0 <= j < prev.len() implies plan.deep_view()[j] == prev[j] by {
            assert(plan@[j] == plan@.subrange(0, plan@.len() - 1)[j]);
        }
        assert(plan.deep_view()[prev.len() as int] == av);
        assert(plan.deep_view() =~~= prev.push(av));
    }
}

/// Append a whole segment to a plan, in order.
pub fn append_actions(plan: &mut Vec<Action>, other: Vec<Action>)
    ensures
        final(plan).deep_view() == old(plan).deep_view() + other.deep_view(),
{
    let ghost a = plan.deep_view();
    let ghost b = other.deep_view();
    let mut rest = other;
    plan.append(&mut rest);
    proof {
        assert forall|j: int| 0 <= j < plan.deep_view().len() implies plan.deep_view()[j] == (a
            + b)[j] by {
            if j < a.len() {
                assert(plan@[j] == plan@.subrange(0, a.len() as int)[j]);
            } else {
                assert(plan@[j] == plan@.subrange(a.len() as int, plan@.len() as int)[j - a.len()]);
            }
        }
        assert(plan.deep_view() =~~= a + b);
    }
}

/// Build the closing taint-removal steps, as `taint_part` describes.
pub fn taint_actions(remove: bool, node_name: &Option<String>, taint_key: &String) -> (acts: Vec<
    Action,
>)
    ensures
        acts.deep_view() == taint_part(remove, *node_name, taint_key@),
{
    let mut acts: Vec<Action> = Vec::new();
    if remove {
        match node_name {
            Some(n) => {
                acts.push(
                    Action::RemoveTaint { node_name: n.clone(), taint_key: taint_key.clone() },
                );
            },
            None => {
                acts.push(Action::Fail { error: SetupError::NodeNameMissing });
            },
        }
    }
    proof {
        assert(acts.deep_view() =~= taint_part(remove, *node_name, taint_key@));
    }
    acts
}

} // verus!
