//! The LVM orchestrator: given the devices to use and the current LVM state
//! (volume-group and physical-volume reports, queried fresh on every run), it
//! decides which creation commands must still run so the target volume group
//! exists exactly once.  A group that already exists is accepted as the work
//! of a prior run and left untouched, whatever its members.

use vstd::prelude::*;

use crate::plan::{
    fail_v, read_ahead_action, read_ahead_part, read_ahead_v, taint_actions, taint_part, Action,
    ActionV,
};
use crate::{Commander, SetupError};

verus! {

/// One volume-group row of an LVM report.
#[derive(Debug, PartialEq)]
pub struct VgReport {
    pub vg_name: String,
}

/// One physical-volume row of an LVM report.
#[derive(Debug, PartialEq)]
pub struct PvReport {
    pub pv_name: String,
}

/// The first element of an LVM report document; the `vg` and `pv` lists are
/// each present only in the report of the matching query.
#[derive(Debug, PartialEq)]
pub struct LvmReport {
    pub vg: Option<Vec<VgReport>>,
    pub pv: Option<Vec<PvReport>>,
}

/// An LVM report document: a `report` list whose first element carries the
/// rows.  Reports come from the LVM toolchain's structured output; a report
/// without a first element or without the queried list is malformed and
/// fatal.
#[derive(Debug, PartialEq)]
pub struct LvmReportWrapper {
    pub report: Vec<LvmReport>,
}

/// The report has a first element carrying a volume-group list.
pub open spec fn vgs_wellformed(w: &LvmReportWrapper) -> bool {
    w.report@.len() > 0 && w.report@[0].vg is Some
}

/// Some volume-group row of a wellformed report is named `name`.
pub open spec fn vg_listed(w: &LvmReportWrapper, name: Seq<char>) -> bool {
    exists|i: int|
        0 <= i < w.report@[0].vg.unwrap()@.len() && w.report@[0].vg.unwrap()@[i].vg_name@ == name
}

/// The report has a first element carrying a physical-volume list.
pub open spec fn pvs_wellformed(w: &LvmReportWrapper) -> bool {
    w.report@.len() > 0 && w.report@[0].pv is Some
}

/// Some physical-volume row of a wellformed report names `device`.
pub open spec fn pv_listed(w: &LvmReportWrapper, device: Seq<char>) -> bool {
    exists|i: int|
        0 <= i < w.report@[0].pv.unwrap()@.len() && w.report@[0].pv.unwrap()@[i].pv_name@ == device
}

/// The command that initializes `device` as a physical volume, overwriting
/// any previous signature.
pub open spec fn pvcreate_v(device: Seq<char>) -> ActionV {
    ActionV::Run { argv: seq!["pvcreate"@, "-f"@, device] }
}

/// The command that creates volume group `name` from all of `devices`.
pub open spec fn vgcreate_v(name: Seq<char>, devices: Seq<Seq<char>>) -> ActionV {
    ActionV::Run { argv: seq!["vgcreate"@, name] + devices }
}

/// One `pvcreate` per device not already registered as a physical volume, in
/// device order.
pub open spec fn pv_part(pvs: &LvmReportWrapper, devices: Seq<Seq<char>>) -> Seq<ActionV>
    decreases devices.len(),
{
    if devices.len() == 0 {
        Seq::empty()
    } else {
        (if pv_listed(pvs, devices[0]) {
            Seq::empty()
        } else {
            seq![pvcreate_v(devices[0])]
        }) + pv_part(pvs, devices.drop_first())
    }
}

/// The orchestrator's configuration for one run.
pub struct LvmController {
    pub commander: Commander,
    pub node_name: Option<String>,
    pub taint_key: String,
    pub remove_taint: bool,
    pub vg_name: String,
    pub read_ahead_kb: usize,
}

/// The complete LVM plan: tune read-ahead on every device, then either stop
/// on a malformed report, accept an existing group, or create the missing
/// physical volumes and the group; finally the taint step when requested.
pub open spec fn lvm_plan(
    c: &LvmController,
    devices: Seq<Seq<char>>,
    vgs: &LvmReportWrapper,
    pvs: &LvmReportWrapper,
) -> Seq<ActionV> {
    read_ahead_part(devices, c.read_ahead_kb as nat) + (if !vgs_wellformed(vgs) {
        seq![fail_v(SetupError::BadVgReport)]
    } else if vg_listed(vgs, c.vg_name@) {
        taint_part(c.remove_taint, c.node_name, c.taint_key@)
    } else if devices.len() > 0 && !pvs_wellformed(pvs) {
        seq![fail_v(SetupError::BadPvReport)]
    } else {
        pv_part(pvs, devices) + seq![vgcreate_v(c.vg_name@, devices)] + taint_part(
            c.remove_taint,
            c.node_name,
            c.taint_key@,
        )
    })
}

impl LvmController {
    /// Whether the target volume group already exists, read off the `vgs`
    /// report; a malformed report is the fatal error instead.
    pub fn volume_group_exists(&self, vgs: &LvmReportWrapper) -> (r: Result<bool, SetupError>)
        ensures
            match r {
                Ok(b) => vgs_wellformed(vgs) && b == vg_listed(vgs, self.vg_name@),
                Err(e) => !vgs_wellformed(vgs) && e == SetupError::BadVgReport,
            },
    {
        if vgs.report.len() == 0 {
            return Err(SetupError::BadVgReport);
        }
        match &vgs.report[0].vg {
            None => Err(SetupError::BadVgReport),
            Some(rows) => {
                let n = rows.len();
                let mut i: usize = 0;
                loop
                    invariant
                        0 <= i <= n,
                        n == rows@.len(),
                        rows@ == vgs.report@[0].vg.unwrap()@,
                        forall|j: int| 0 <= j < i ==> rows@[j].vg_name@ != self.vg_name@,
                    ensures
                        0 <= i <= n,
                        forall|j: int| 0 <= j < i ==> rows@[j].vg_name@ != self.vg_name@,
                        i < n ==> rows@[i as int].vg_name@ == self.vg_name@,
                    decreases n - i,
                {
                    if i >= n {
                        break;
                    }
                    if rows[i].vg_name == self.vg_name {
                        break;
                    }
                    i = i + 1;
                }
                Ok(i < n)
            },
        }
    }

    /// Whether `device` is already registered as a physical volume, read off
    /// the `pvs` report; a malformed report is the fatal error instead.
    pub fn physical_volume_exists(&self, pvs: &LvmReportWrapper, device: &String) -> (r: Result<
        bool,
        SetupError,
    >)
        ensures
            match r {
                Ok(b) => pvs_wellformed(pvs) && b == pv_listed(pvs, device@),
                Err(e) => !pvs_wellformed(pvs) && e == SetupError::BadPvReport,
            },
    {
        if pvs.report.len() == 0 {
            return Err(SetupError::BadPvReport);
        }
        match &pvs.report[0].pv {
            None => Err(SetupError::BadPvReport),
            Some(rows) => {
                let n = rows.len();
                let mut i: usize = 0;
                loop
                    invariant
                        0 <= i <= n,
                        n == rows@.len(),
                        rows@ == pvs.report@[0].pv.unwrap()@,
                        forall|j: int| 0 <= j < i ==> rows@[j].pv_name@ != device@,
                    ensures
                        0 <= i <= n,
                        forall|j: int| 0 <= j < i ==> rows@[j].pv_name@ != device@,
                        i < n ==> rows@[i as int].pv_name@ == device@,
                    decreases n - i,
                {
                    if i >= n {
                        break;
                    }
                    if rows[i].pv_name == *device {
                        break;
                    }
                    i = i + 1;
                }
                Ok(i < n)
            },
        }
    }

    /// The command initializing `device` as a physical volume, as
    /// `pvcreate_v` describes.
    pub fn pvcreate(&self, device: &String) -> (a: Action)
        ensures
            a.deep_view() == pvcreate_v(device@),
    {
        let mut argv: Vec<String> = Vec::new();
        argv.push("pvcreate".to_owned());
        argv.push("-f".to_owned());
        argv.push(device.clone());
        proof {
            assert(argv.deep_view() =~~= seq!["pvcreate"@, "-f"@, device@]);
        }
        Action::Run { argv }
    }

    /// The command creating the target volume group from all of `devices`,
    /// as `vgcreate_v` describes.
    pub fn vgcreate(&self, devices: &Vec<String>) -> (a: Action)
        ensures
            a.deep_view() == vgcreate_v(self.vg_name@, devices.deep_view()),
    {
        let mut argv: Vec<String> = Vec::new();
        argv.push("vgcreate".to_owned());
        argv.push(self.vg_name.clone());
        let n = devices.len();
        let mut i: usize = 0;
        while i < n
            invariant
                0 <= i <= n,
                n == devices@.len(),
                argv.deep_view() =~~= seq!["vgcreate"@, self.vg_name@] + devices.deep_view().take(
                    i as int,
                ),
            decreases n - i,
        {
            let ghost prev = argv.deep_view();
            argv.push(devices[i].clone());
            i = i + 1;
            proof {
                let dv = devices.deep_view();
                assert(argv@.len() == prev.len() + 1);
                assert(argv.deep_view().len() == prev.len() + 1);
                assert forall|j: int| 0 <= j < prev.len() implies argv.deep_view()[j] == prev[j] by {
                    assert(argv@[j] == argv@.subrange(0, argv@.len() - 1)[j]);
                }
                assert(argv.deep_view()[prev.len() as int] == dv[i - 1]);
                assert(argv.deep_view() =~~= prev.push(dv[i - 1]));
                assert(argv.deep_view() =~~= (seq!["vgcreate"@, self.vg_name@] + dv.take(i - 1)).push(
                    dv[i - 1],
                ));
                assert(argv.deep_view() =~~= seq!["vgcreate"@, self.vg_name@]
                    + devices.deep_view().take(i as int));
            }
        }
        proof {
            assert(devices.deep_view().take(n as int) =~~= devices.deep_view());
            assert(argv.deep_view() =~~= seq!["vgcreate"@, self.vg_name@] + devices.deep_view());
        }
        Action::Run { argv }
    }

    /// Decide the complete corrective plan for this run, as `lvm_plan`
    /// describes: read-ahead tuning for every device, then only the creation
    /// commands the current LVM state still calls for, then the taint step.
    pub fn setup(&self, devices: &Vec<String>, vgs: &LvmReportWrapper, pvs: &LvmReportWrapper) -> (
    plan: Vec<Action>)
        ensures
            plan.deep_view() == lvm_plan(self, devices.deep_view(), vgs, pvs),
    {
        let ghost devs = devices.deep_view();
        let mut plan: Vec<Action> = Vec::new();
        let n = devices.len();
        let mut i: usize = 0;
        while i < n
            invariant
                0 <= i <= n,
                n == devices@.len(),
                devs == devices.deep_view(),
                plan.deep_view() =~~= read_ahead_part(devs.take(i as int), self.read_ahead_kb as nat),
            decreases n - i,
        {
            let ghost prev = plan.deep_view();
            plan.push(read_ahead_action(&devices[i], self.read_ahead_kb));
            i = i + 1;
            proof {
                assert forall|j: int| 0 <= j < prev.len() implies plan.deep_view()[j] == prev[j] by {
                    assert(plan@[j] == plan@.subrange(0, plan@.len() - 1)[j]);
                }
                assert(plan.deep_view()[prev.len() as int] == read_ahead_v(
                    devs[i - 1],
                    self.read_ahead_kb as nat,
                ));
                assert(plan.deep_view() =~~= prev.push(
                    read_ahead_v(devs[i - 1], self.read_ahead_kb as nat),
                ));
                assert(plan.deep_view() =~~= read_ahead_part(
                    devs.take(i as int),
                    self.read_ahead_kb as nat,
                ));
            }
        }
        proof {
            assert(devs.take(n as int) =~~= devs);
            assert(plan.deep_view() =~~= read_ahead_part(devs, self.read_ahead_kb as nat));
        }
        let ghost ra = plan.deep_view();
        match self.volume_group_exists(vgs) {
            Err(e) => {
                plan.push(Action::Fail { error: e });
                proof {
                    assert(plan.deep_view() =~~= ra + seq![fail_v(SetupError::BadVgReport)]);
                }
                return plan;
            },
            Ok(true) => {
                let mut t = taint_actions(self.remove_taint, &self.node_name, &self.taint_key);
                plan.append(&mut t);
                proof {
                    assert(plan.deep_view() =~~= ra + taint_part(
                        self.remove_taint,
                        self.node_name,
                        self.taint_key@,
                    ));
                }
                return plan;
            },
            Ok(false) => {},
        }
        let mut i: usize = 0;
        loop
            invariant
                0 <= i <= n,
                n == devices@.len(),
                devs == devices.deep_view(),
                vgs_wellformed(vgs),
                !vg_listed(vgs, self.vg_name@),
                i > 0 ==> pvs_wellformed(pvs),
                ra == read_ahead_part(devs, self.read_ahead_kb as nat),
                plan.deep_view() =~~= ra + pv_part(pvs, devs.take(i as int)),
                pv_part(pvs, devs) =~~= pv_part(pvs, devs.take(i as int)) + pv_part(
                    pvs,
                    devs.skip(i as int),
                ),
            ensures
                i == n,
                pvs_wellformed(pvs) || n == 0,
                plan.deep_view() =~~= ra + pv_part(pvs, devs.take(i as int)),
            decreases n - i,
        {
            if i >= n {
                break;
            }
            match self.physical_volume_exists(pvs, &devices[i]) {
                Err(e) => {
                    proof {
                        assert(i == 0);
                        assert(devs.take(0) =~~= Seq::<Seq<char>>::empty());
                        assert(plan.deep_view() =~~= ra);
                    }
                    let ghost prev = plan.deep_view();
                    plan.push(Action::Fail { error: e });
                    proof {
                        assert forall|j: int| 0 <= j < prev.len() implies plan.deep_view()[j]
                            == prev[j] by {
                            assert(plan@[j] == plan@.subrange(0, plan@.len() - 1)[j]);
                        }
                        assert(plan.deep_view()[prev.len() as int] == fail_v(
                            SetupError::BadPvReport,
                        ));
                        assert(plan.deep_view() =~~= ra + seq![fail_v(SetupError::BadPvReport)]);
                        assert(n > 0 && devs.len() == n);
                        assert(plan.deep_view() =~~= lvm_plan(self, devs, vgs, pvs));
                    }
                    return plan;
                },
                Ok(exists_already) => {
                    let ghost prev = plan.deep_view();
                    if !exists_already {
                        plan.push(self.pvcreate(&devices[i]));
                    }
                    proof {
                        if !exists_already {
                            assert forall|j: int| 0 <= j < prev.len() implies plan.deep_view()[j]
                                == prev[j] by {
                                assert(plan@[j] == plan@.subrange(0, plan@.len() - 1)[j]);
                            }
                            assert(plan.deep_view()[prev.len() as int] == pvcreate_v(
                                devs[i as int],
                            ));
                            assert(plan.deep_view() =~~= prev.push(pvcreate_v(devs[i as int])));
                        }
                        let dtail = devs.skip(i as int);
                        assert(dtail[0] == devs[i as int]);
                        assert(dtail.drop_first() =~~= devs.skip(i as int + 1));
                        assert(pv_part(pvs, dtail) =~~= (if pv_listed(pvs, devs[i as int]) {
                            Seq::<ActionV>::empty()
                        } else {
                            seq![pvcreate_v(devs[i as int])]
                        }) + pv_part(pvs, devs.skip(i as int + 1)));
                        assert(devs.take(i as int + 1) =~~= devs.take(i as int).push(
                            devs[i as int],
                        ));
                        assert(devs.take(i as int + 1).drop_last() =~~= devs.take(i as int));
                        assert(devs.take(i as int + 1).last() == devs[i as int]);
                        lemma_pv_part_snoc(pvs, devs.take(i as int + 1));
                        assert(pv_part(pvs, devs.take(i as int + 1)) =~~= pv_part(
                            pvs,
                            devs.take(i as int),
                        ) + (if pv_listed(pvs, devs[i as int]) {
                            Seq::<ActionV>::empty()
                        } else {
                            seq![pvcreate_v(devs[i as int])]
                        }));
                        assert(plan.deep_view() =~~= ra + pv_part(pvs, devs.take(i as int + 1)));
                        assert(pv_part(pvs, devs) =~~= pv_part(pvs, devs.take(i as int + 1))
                            + pv_part(pvs, devs.skip(i as int + 1)));
                    }
                    i = i + 1;
                },
            }
        }
        proof {
            assert(devs.take(n as int) =~~= devs);
        }
        plan.push(self.vgcreate(devices));
        let mut t = taint_actions(self.remove_taint, &self.node_name, &self.taint_key);
        plan.append(&mut t);
        proof {
            assert(plan.deep_view() =~~= ra + pv_part(pvs, devs) + seq![
                vgcreate_v(self.vg_name@, devs),
            ] + taint_part(self.remove_taint, self.node_name, self.taint_key@));
            assert(plan.deep_view() =~~= lvm_plan(self, devs, vgs, pvs));
        }
        plan
    }
}

/// Splitting off the last device splits off its (possible) `pvcreate`.
proof fn lemma_pv_part_snoc(pvs: &LvmReportWrapper, devices: Seq<Seq<char>>)
    requires
        devices.len() > 0,
    ensures
        pv_part(pvs, devices) =~~= pv_part(pvs, devices.drop_last()) + (if pv_listed(
            pvs,
            devices.last(),
        ) {
            Seq::<ActionV>::empty()
        } else {
            seq![pvcreate_v(devices.last())]
        }),
    decreases devices.len(),
{
    if devices.len() == 1 {
        assert(devices.drop_last() =~~= Seq::<Seq<char>>::empty());
        assert(devices.drop_first() =~~= Seq::<Seq<char>>::empty());
    } else {
        lemma_pv_part_snoc(pvs, devices.drop_first());
        assert(devices.drop_first().drop_last() =~~= devices.drop_last().drop_first());
        assert(devices.drop_last()[0] == devices[0]);
        assert(devices.drop_first().last() == devices.last());
    }
}

/// No creation command: the step neither initializes a physical volume nor
/// creates a volume group.
pub open spec fn is_creation_step(a: ActionV) -> bool {
    a matches ActionV::Run { argv } && argv.len() > 0 && (argv[0] == "pvcreate"@ || argv[0]
        == "vgcreate"@)
}

/// Idempotency of the LVM orchestrator: when the target volume group already
/// exists (as a second run in succession finds), the plan performs no
/// physical-volume and no volume-group creation command at all.
pub proof fn lemma_lvm_idempotent(
    c: &LvmController,
    devices: Seq<Seq<char>>,
    vgs: &LvmReportWrapper,
    pvs: &LvmReportWrapper,
)
    requires
        vgs_wellformed(vgs),
        vg_listed(vgs, c.vg_name@),
    ensures
        forall|k: int|
            0 <= k < lvm_plan(c, devices, vgs, pvs).len() ==> !is_creation_step(
                #[trigger] lvm_plan(c, devices, vgs, pvs)[k],
            ),
{
    let p = lvm_plan(c, devices, vgs, pvs);
    let ra = read_ahead_part(devices, c.read_ahead_kb as nat);
    let t = taint_part(c.remove_taint, c.node_name, c.taint_key@);
    assert(p == ra + t);
    assert forall|k: int| 0 <= k < p.len() implies !is_creation_step(p[k]) by {
        if k < ra.len() {
            assert(p[k] == ra[k]);
            assert(ra[k] == read_ahead_v(devices[k], c.read_ahead_kb as nat));
        } else {
            assert(p[k] == t[k - ra.len()]);
        }
    }
}

} // verus!
