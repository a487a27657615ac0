use ephemeral_storage_setup::config::{ConfigDoc, ConfigValue};
use ephemeral_storage_setup::plan::Action;
use ephemeral_storage_setup::swap::{kubelet_config_path, SwapController};
use ephemeral_storage_setup::{CloudProvider, Commander, SetupError};

fn controller() -> SwapController {
    SwapController {
        cloud_provider: CloudProvider::Aws,
        commander: Commander::default(),
        node_name: None,
        taint_key: "startup-taint.cluster-autoscaler.kubernetes.io/disk-unconfigured".to_owned(),
        bottlerocket_enable_swap: false,
        hack_restart_kubelet_enable_swap: false,
        remove_taint: false,
        apply_sysctls: false,
        vm_swappiness: 100,
        vm_min_free_kbytes: 1048576,
        vm_watermark_scale_factor: 100,
        read_ahead_kb: 20480,
    }
}

fn devices(names: &[&str]) -> Vec<String> {
    names.iter().map(|n| (*n).to_owned()).collect()
}

const SWAP_TABLE: &str = "Filename\t\t\t\tType\t\tSize\t\tUsed\t\tPriority\n/nvme2n1                                partition\t393215996\t0\t\t-2\n";

#[test]
fn suffix_match_recognizes_existing_swap() {
    let c = controller();
    let table = "Filename\tType\tSize\tUsed\tPriority\nnvme0n1\tpartition\t1\t0\t-2\n";
    assert_eq!(c.is_existing_swap(&"/dev/nvme0n1".to_owned(), table), Ok(true));
    assert_eq!(c.is_existing_swap(&"/dev/nvme1n1".to_owned(), table), Ok(false));
}

#[test]
fn header_only_and_empty_tables_list_nothing() {
    let c = controller();
    assert_eq!(c.is_existing_swap(&"/dev/nvme0n1".to_owned(), ""), Ok(false));
    assert_eq!(
        c.is_existing_swap(&"/dev/nvme0n1".to_owned(), "Filename\tType\n"),
        Ok(false)
    );
}

#[test]
fn blank_swap_table_line_is_fatal() {
    let c = controller();
    let table = "Filename\tType\n   \t \n/nvme0n1 partition 1 0 -2";
    assert_eq!(
        c.is_existing_swap(&"/dev/nvme0n1".to_owned(), table),
        Err(SetupError::BadSwapTable)
    );
}

#[test]
fn unlisted_device_is_formatted_and_activated() {
    let c = controller();
    let devs = devices(&["/dev/nvme1n1", "/dev/nvme2n1"]);
    let plan = c.setup(&devs, SWAP_TABLE, ConfigDoc::new());
    // First device: read-ahead, mkswap, swapon with the fixed priority.
    assert!(matches!(&plan[0], Action::SetReadAhead { path, contents }
        if path == "/sys/block/nvme1n1/queue/read_ahead_kb" && contents == "20480"));
    assert!(matches!(&plan[1], Action::Run { argv }
        if argv == &vec!["mkswap".to_owned(), "/dev/nvme1n1".to_owned()]));
    assert!(matches!(&plan[2], Action::Run { argv }
        if argv == &vec![
            "swapon".to_owned(), "-p".to_owned(), "10".to_owned(), "/dev/nvme1n1".to_owned()
        ]));
    // Second device is already listed: only its read-ahead tuning.
    assert!(matches!(&plan[3], Action::SetReadAhead { path, .. }
        if path == "/sys/block/nvme2n1/queue/read_ahead_kb"));
    assert_eq!(plan.len(), 4);
}

#[test]
fn sysctls_are_applied_when_requested() {
    let mut c = controller();
    c.apply_sysctls = true;
    let plan = c.setup(&devices(&[]), "", ConfigDoc::new());
    let argvs: Vec<&Vec<String>> = plan
        .iter()
        .filter_map(|a| match a {
            Action::Run { argv } => Some(argv),
            _ => None,
        })
        .collect();
    assert_eq!(
        argvs,
        vec![
            &vec!["sysctl".to_owned(), "vm.swappiness=100".to_owned()],
            &vec!["sysctl".to_owned(), "vm.min_free_kbytes=1048576".to_owned()],
            &vec!["sysctl".to_owned(), "vm.watermark_scale_factor=100".to_owned()],
        ]
    );
}

#[test]
fn bottlerocket_strategy_uses_the_api_client() {
    let mut c = controller();
    c.bottlerocket_enable_swap = true;
    let plan = c.setup(&devices(&[]), "", ConfigDoc::new());
    assert!(matches!(&plan[0], Action::Run { argv }
        if argv == &vec![
            "apiclient".to_owned(),
            "set".to_owned(),
            "settings.kubernetes.memory-swap-behavior=LimitedSwap".to_owned()
        ]));
    assert_eq!(plan.len(), 1);
}

#[test]
fn config_hack_on_gcp_writes_config_and_restarts() {
    let mut c = controller();
    c.cloud_provider = CloudProvider::Gcp;
    c.hack_restart_kubelet_enable_swap = true;
    let mut doc = ConfigDoc::new();
    doc.insert_value(&"failSwapOn".to_owned(), ConfigValue::Bool(false));
    let plan = c.setup(&devices(&[]), "", doc);
    assert!(matches!(&plan[0], Action::WriteConfig { path, doc }
        if path == "/host/home/kubernetes/kubelet-config.yaml" && doc.entries.len() == 1));
    assert!(matches!(&plan[1], Action::Run { argv }
        if argv == &vec![
            "chroot".to_owned(), "/host".to_owned(), "systemctl".to_owned(),
            "daemon-reload".to_owned()
        ]));
    assert!(matches!(&plan[2], Action::Run { argv }
        if argv == &vec![
            "chroot".to_owned(), "/host".to_owned(), "systemctl".to_owned(),
            "restart".to_owned(), "kubelet.service".to_owned()
        ]));
    assert_eq!(plan.len(), 3);
}

#[test]
fn config_hack_on_azure_also_writes_the_dropin() {
    let mut c = controller();
    c.cloud_provider = CloudProvider::Azure;
    c.hack_restart_kubelet_enable_swap = true;
    let plan = c.setup(&devices(&[]), "", ConfigDoc::new());
    assert!(matches!(&plan[0], Action::WriteConfig { path, .. }
        if path == "/host/var/lib/kubelet/config.yaml"));
    assert!(matches!(&plan[1], Action::WriteFile { path, contents }
        if path == "/host/etc/systemd/system/kubelet.service.d/99-enable-swap.conf"
            && contents == "[Service]\nEnvironment=\"KUBELET_CONFIG_FILE_FLAGS=--config /var/lib/kubelet/config.yaml\""));
    assert!(matches!(&plan[2], Action::Run { .. }));
    assert!(matches!(&plan[3], Action::Run { .. }));
    assert_eq!(plan.len(), 4);
}

#[test]
fn config_hack_on_unsupported_provider_aborts_without_writing() {
    let mut c = controller();
    c.cloud_provider = CloudProvider::Aws;
    c.hack_restart_kubelet_enable_swap = true;
    c.remove_taint = true;
    c.node_name = Some("node-1".to_owned());
    let plan = c.setup(&devices(&["/dev/nvme1n1"]), SWAP_TABLE, ConfigDoc::new());
    for a in &plan {
        assert!(!matches!(a, Action::WriteConfig { .. }));
        assert!(!matches!(a, Action::WriteFile { .. }));
    }
    assert!(matches!(
        plan.last().unwrap(),
        Action::Fail { error: SetupError::UnsupportedProvider { provider: CloudProvider::Aws } }
    ));
}

#[test]
fn taint_removal_follows_successful_swap_setup() {
    let mut c = controller();
    c.remove_taint = true;
    c.node_name = Some("node-9".to_owned());
    let plan = c.setup(&devices(&[]), "", ConfigDoc::new());
    assert!(matches!(plan.last().unwrap(), Action::RemoveTaint { node_name, .. }
        if node_name == "node-9"));
    assert_eq!(plan.len(), 1);
}

#[test]
fn provider_config_paths() {
    assert_eq!(
        kubelet_config_path(CloudProvider::Gcp),
        Some("/host/home/kubernetes/kubelet-config.yaml")
    );
    assert_eq!(
        kubelet_config_path(CloudProvider::Azure),
        Some("/host/var/lib/kubelet/config.yaml")
    );
    assert_eq!(kubelet_config_path(CloudProvider::Aws), None);
    assert_eq!(kubelet_config_path(CloudProvider::Generic), None);
}
