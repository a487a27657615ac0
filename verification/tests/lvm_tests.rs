use ephemeral_storage_setup::lvm::{
    LvmController, LvmReport, LvmReportWrapper, PvReport, VgReport,
};
use ephemeral_storage_setup::plan::Action;
use ephemeral_storage_setup::{Commander, SetupError};

fn controller(vg_name: &str) -> LvmController {
    LvmController {
        commander: Commander::default(),
        node_name: None,
        taint_key: "startup-taint.cluster-autoscaler.kubernetes.io/disk-unconfigured".to_owned(),
        remove_taint: false,
        vg_name: vg_name.to_owned(),
        read_ahead_kb: 20480,
    }
}

fn vg_report(names: &[&str]) -> LvmReportWrapper {
    LvmReportWrapper {
        report: vec![LvmReport {
            vg: Some(
                names
                    .iter()
                    .map(|n| VgReport { vg_name: (*n).to_owned() })
                    .collect(),
            ),
            pv: None,
        }],
    }
}

fn pv_report(names: &[&str]) -> LvmReportWrapper {
    LvmReportWrapper {
        report: vec![LvmReport {
            vg: None,
            pv: Some(
                names
                    .iter()
                    .map(|n| PvReport { pv_name: (*n).to_owned() })
                    .collect(),
            ),
        }],
    }
}

fn devices(names: &[&str]) -> Vec<String> {
    names.iter().map(|n| (*n).to_owned()).collect()
}

fn run_argvs(plan: &[Action]) -> Vec<Vec<String>> {
    plan.iter()
        .filter_map(|a| match a {
            Action::Run { argv } => Some(argv.clone()),
            _ => None,
        })
        .collect()
}

#[test]
fn fresh_setup_creates_everything_in_order() {
    let c = controller("data-vg");
    let devs = devices(&["/dev/nvme1n1", "/dev/nvme2n1"]);
    let plan = c.setup(&devs, &vg_report(&[]), &pv_report(&[]));
    // Two read-ahead tunings first, one per device.
    assert!(matches!(&plan[0], Action::SetReadAhead { path, contents }
        if path == "/sys/block/nvme1n1/queue/read_ahead_kb" && contents == "20480"));
    assert!(matches!(&plan[1], Action::SetReadAhead { path, contents }
        if path == "/sys/block/nvme2n1/queue/read_ahead_kb" && contents == "20480"));
    // Then exactly two pvcreates followed by one vgcreate listing both devices.
    let runs = run_argvs(&plan);
    assert_eq!(
        runs,
        vec![
            vec!["pvcreate".to_owned(), "-f".to_owned(), "/dev/nvme1n1".to_owned()],
            vec!["pvcreate".to_owned(), "-f".to_owned(), "/dev/nvme2n1".to_owned()],
            vec![
                "vgcreate".to_owned(),
                "data-vg".to_owned(),
                "/dev/nvme1n1".to_owned(),
                "/dev/nvme2n1".to_owned()
            ],
        ]
    );
    assert_eq!(plan.len(), 5);
}

#[test]
fn existing_group_creates_nothing() {
    let c = controller("data-vg");
    let devs = devices(&["/dev/nvme1n1", "/dev/nvme2n1"]);
    let plan = c.setup(&devs, &vg_report(&["other-vg", "data-vg"]), &pv_report(&[]));
    assert_eq!(run_argvs(&plan).len(), 0);
    assert_eq!(plan.len(), 2); // only the read-ahead tunings
}

#[test]
fn existing_physical_volumes_are_skipped() {
    let c = controller("data-vg");
    let devs = devices(&["/dev/nvme1n1", "/dev/nvme2n1"]);
    let plan = c.setup(&devs, &vg_report(&[]), &pv_report(&["/dev/nvme1n1"]));
    let runs = run_argvs(&plan);
    assert_eq!(
        runs,
        vec![
            vec!["pvcreate".to_owned(), "-f".to_owned(), "/dev/nvme2n1".to_owned()],
            vec![
                "vgcreate".to_owned(),
                "data-vg".to_owned(),
                "/dev/nvme1n1".to_owned(),
                "/dev/nvme2n1".to_owned()
            ],
        ]
    );
}

#[test]
fn malformed_vg_report_is_fatal() {
    let c = controller("data-vg");
    let devs = devices(&["/dev/nvme1n1"]);
    let empty = LvmReportWrapper { report: vec![] };
    let plan = c.setup(&devs, &empty, &pv_report(&[]));
    assert_eq!(plan.len(), 2);
    assert!(matches!(plan[1], Action::Fail { error: SetupError::BadVgReport }));
}

#[test]
fn malformed_pv_report_is_fatal() {
    let c = controller("data-vg");
    let devs = devices(&["/dev/nvme1n1"]);
    let no_pv = LvmReportWrapper {
        report: vec![LvmReport { vg: None, pv: None }],
    };
    let plan = c.setup(&devs, &vg_report(&[]), &no_pv);
    assert_eq!(plan.len(), 2);
    assert!(matches!(plan[1], Action::Fail { error: SetupError::BadPvReport }));
}

#[test]
fn taint_removal_follows_successful_setup() {
    let mut c = controller("data-vg");
    c.remove_taint = true;
    c.node_name = Some("node-1".to_owned());
    let devs = devices(&["/dev/nvme1n1"]);
    let plan = c.setup(&devs, &vg_report(&["data-vg"]), &pv_report(&[]));
    assert!(matches!(plan.last().unwrap(), Action::RemoveTaint { node_name, taint_key }
        if node_name == "node-1"
            && taint_key == "startup-taint.cluster-autoscaler.kubernetes.io/disk-unconfigured"));
}

#[test]
fn missing_node_name_is_fatal_when_removal_requested() {
    let mut c = controller("data-vg");
    c.remove_taint = true;
    let devs = devices(&["/dev/nvme1n1"]);
    let plan = c.setup(&devs, &vg_report(&["data-vg"]), &pv_report(&[]));
    assert!(matches!(
        plan.last().unwrap(),
        Action::Fail { error: SetupError::NodeNameMissing }
    ));
}

#[test]
fn report_queries() {
    let c = controller("data-vg");
    assert_eq!(c.volume_group_exists(&vg_report(&["data-vg"])), Ok(true));
    assert_eq!(c.volume_group_exists(&vg_report(&["other"])), Ok(false));
    assert_eq!(
        c.volume_group_exists(&LvmReportWrapper { report: vec![] }),
        Err(SetupError::BadVgReport)
    );
    assert_eq!(
        c.physical_volume_exists(&pv_report(&["/dev/a"]), &"/dev/a".to_owned()),
        Ok(true)
    );
    assert_eq!(
        c.physical_volume_exists(&pv_report(&["/dev/a"]), &"/dev/b".to_owned()),
        Ok(false)
    );
}
