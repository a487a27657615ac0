//! The swap orchestrator: given the devices to use, the kernel's current
//! swap table and (for the config-patch strategy) the freshly patched
//! configuration document, it decides which formatting, activation, sysctl
//! and swap-enablement steps must still run.  A device the kernel already
//! lists as active swap is left alone; the swap table tolerates entries that
//! omit the leading device directory, so matching is by path suffix.

use vstd::prelude::*;

use crate::config::ConfigDoc;
use crate::plan::{
    append_actions, fail_v, push_action, read_ahead_action, read_ahead_v, taint_actions,
    taint_part, Action, ActionV,
};
use crate::text::{
    dec_str, find_newline, first_newline, first_token, is_suffix_of, str_ends_with, token_of_line,
    trim_ws, trimmed, usize_to_string,
};
use crate::{CloudProvider, Commander, SetupError};

verus! {

/// The lines of `s`: split at every newline.  On trimmed text there is no
/// trailing newline, so no empty final line arises.
pub open spec fn lines_of(s: Seq<char>) -> Seq<Seq<char>>
    decreases s.len(),
{
    if s.len() == 0 {
        Seq::empty()
    } else {
        let i = first_newline(s);
        if 0 <= i < s.len() {
            seq![s.take(i)] + lines_of(s.skip(i + 1))
        } else {
            seq![s]
        }
    }
}

/// Walk the non-header swap-table lines in order: a line without a token is
/// the fatal error, a line whose first token is a suffix of `device` means
/// the device is already active swap, and otherwise the walk continues.
pub open spec fn scan_lines(device: Seq<char>, ls: Seq<Seq<char>>) -> Result<bool, SetupError>
    decreases ls.len(),
{
    if ls.len() == 0 {
        Ok(false)
    } else {
        match first_token(ls[0]) {
            None => Err(SetupError::BadSwapTable),
            Some(t) => if is_suffix_of(t, device) {
                Ok(true)
            } else {
                scan_lines(device, ls.drop_first())
            },
        }
    }
}

/// Whether `device` is already listed in the kernel swap table `table`: the
/// first line is a header and is skipped, each further line's first
/// whitespace-delimited field is an entry, and an entry counts when it is a
/// suffix of the device path.
pub open spec fn swap_scan(device: Seq<char>, table: Seq<char>) -> Result<bool, SetupError> {
    let ls = lines_of(trimmed(table));
    if ls.len() == 0 {
        Ok(false)
    } else {
        scan_lines(device, ls.drop_first())
    }
}

/// The command that formats `device` as swap.
pub open spec fn mkswap_v(device: Seq<char>) -> ActionV {
    ActionV::Run { argv: seq!["mkswap"@, device] }
}

/// The command that activates `device` as swap.  Every device gets the same
/// fixed priority so the kernel spreads pages round-robin across disks.
pub open spec fn swapon_v(device: Seq<char>) -> ActionV {
    ActionV::Run { argv: seq!["swapon"@, "-p"@, "10"@, device] }
}

/// The command that sets the sysctl `key` to `value`.
pub open spec fn sysctl_v(key: Seq<char>, value: nat) -> ActionV {
    ActionV::Run { argv: seq!["sysctl"@, key + "="@ + dec_str(value)] }
}

/// Per-device steps, in device order: tune read-ahead, then format and
/// activate the device unless the swap table already lists it; a malformed
/// swap table aborts the whole run at the first device that consults it.
pub open spec fn device_part(devices: Seq<Seq<char>>, table: Seq<char>, kb: nat) -> Seq<ActionV>
    decreases devices.len(),
{
    if devices.len() == 0 {
        Seq::empty()
    } else {
        let ra = seq![read_ahead_v(devices[0], kb)];
        match swap_scan(devices[0], table) {
            Err(e) => ra + seq![fail_v(e)],
            Ok(true) => ra + device_part(devices.drop_first(), table, kb),
            Ok(false) => ra + seq![mkswap_v(devices[0]), swapon_v(devices[0])] + device_part(
                devices.drop_first(),
                table,
                kb,
            ),
        }
    }
}

/// Whether the per-device walk ends in the fatal swap-table error.
pub open spec fn device_part_failed(devices: Seq<Seq<char>>, table: Seq<char>) -> bool
    decreases devices.len(),
{
    devices.len() > 0 && match swap_scan(devices[0], table) {
        Err(_) => true,
        Ok(_) => device_part_failed(devices.drop_first(), table),
    }
}

/// The three memory-reclaim sysctls, when requested.
pub open spec fn sysctl_part(c: &SwapController) -> Seq<ActionV> {
    if c.apply_sysctls {
        seq![
            sysctl_v("vm.swappiness"@, c.vm_swappiness as nat),
            sysctl_v("vm.min_free_kbytes"@, c.vm_min_free_kbytes as nat),
            sysctl_v("vm.watermark_scale_factor"@, c.vm_watermark_scale_factor as nat),
        ]
    } else {
        Seq::empty()
    }
}

/// The node-local management-API call enabling limited swap, when requested.
pub open spec fn bottlerocket_part(c: &SwapController) -> Seq<ActionV> {
    if c.bottlerocket_enable_swap {
        seq![
            ActionV::Run {
                argv: seq![
                    "apiclient"@,
                    "set"@,
                    "settings.kubernetes.memory-swap-behavior=LimitedSwap"@,
                ],
            },
        ]
    } else {
        Seq::empty()
    }
}

/// Where the kubelet config file lives on this provider, if the config-patch
/// strategy supports it at all.
pub open spec fn config_path_for(p: CloudProvider) -> Option<Seq<char>> {
    match p {
        CloudProvider::Gcp => Some("/host/home/kubernetes/kubelet-config.yaml"@),
        CloudProvider::Azure => Some("/host/var/lib/kubelet/config.yaml"@),
        _ => None,
    }
}

/// The drop-in unit override written on Azure, which has no config file by
/// default and no flag to point at one.
pub open spec fn azure_dropin_path() -> Seq<char> {
    "/host/etc/systemd/system/kubelet.service.d/99-enable-swap.conf"@
}

pub open spec fn azure_dropin_contents() -> Seq<char> {
    "[Service]\nEnvironment=\"KUBELET_CONFIG_FILE_FLAGS=--config /var/lib/kubelet/config.yaml\""@
}

/// Reload unit definitions, then restart the kubelet service, both relative
/// to the host root.
pub open spec fn restart_part() -> Seq<ActionV> {
    seq![
        ActionV::Run { argv: seq!["chroot"@, "/host"@, "systemctl"@, "daemon-reload"@] },
        ActionV::Run {
            argv: seq!["chroot"@, "/host"@, "systemctl"@, "restart"@, "kubelet.service"@],
        },
    ]
}

/// The config-patch swap-enablement steps, when requested: write the patched
/// document `cfg` to the provider's config path (plus the drop-in on Azure)
/// and restart the service; any other provider is the fatal error.
pub open spec fn hack_part(c: &SwapController, cfg: ConfigDoc) -> Seq<ActionV> {
    if !c.hack_restart_kubelet_enable_swap {
        Seq::empty()
    } else {
        match c.cloud_provider {
            CloudProvider::Gcp => seq![
                ActionV::WriteConfig {
                    path: "/host/home/kubernetes/kubelet-config.yaml"@,
                    doc: cfg.entries@,
                },
            ] + restart_part(),
            CloudProvider::Azure => seq![
                ActionV::WriteConfig { path: "/host/var/lib/kubelet/config.yaml"@, doc: cfg.entries@ },
                ActionV::WriteFile {
                    path: azure_dropin_path(),
                    contents: azure_dropin_contents(),
                },
            ] + restart_part(),
            _ => seq![fail_v(SetupError::UnsupportedProvider { provider: c.cloud_provider })],
        }
    }
}

/// The config-patch strategy was requested on a provider it does not
/// support, so the run aborts before the taint step.
pub open spec fn hack_failed(c: &SwapController) -> bool {
    c.hack_restart_kubelet_enable_swap && !(c.cloud_provider is Gcp) && !(c.cloud_provider
        is Azure)
}

/// The orchestrator's configuration for one run.
pub struct SwapController {
    pub cloud_provider: CloudProvider,
    pub commander: Commander,
    pub node_name: Option<String>,
    pub taint_key: String,
    pub bottlerocket_enable_swap: bool,
    pub hack_restart_kubelet_enable_swap: bool,
    pub remove_taint: bool,
    pub apply_sysctls: bool,
    pub vm_swappiness: usize,
    pub vm_min_free_kbytes: usize,
    pub vm_watermark_scale_factor: usize,
    pub read_ahead_kb: usize,
}

/// The complete swap plan: the per-device steps, and, unless those aborted,
/// the sysctls, the management-API call, the config-patch steps, and the
/// taint step (skipped when the config-patch strategy aborted on an
/// unsupported provider).
pub open spec fn swap_plan(
    c: &SwapController,
    devices: Seq<Seq<char>>,
    table: Seq<char>,
    cfg: ConfigDoc,
) -> Seq<ActionV> {
    let dp = device_part(devices, table, c.read_ahead_kb as nat);
    if device_part_failed(devices, table) {
        dp
    } else {
        dp + sysctl_part(c) + bottlerocket_part(c) + hack_part(c, cfg) + (if hack_failed(c) {
            Seq::empty()
        } else {
            taint_part(c.remove_taint, c.node_name, c.taint_key@)
        })
    }
}

/// A step that formats or activates `device` as swap.
pub open spec fn is_swap_setup_step(a: ActionV, device: Seq<char>) -> bool {
    a matches ActionV::Run { argv } && argv.len() > 0 && (argv[0] == "mkswap"@ || argv[0]
        == "swapon"@) && argv.last() == device
}

proof fn lemma_device_part_skips_existing(
    devices: Seq<Seq<char>>,
    table: Seq<char>,
    kb: nat,
    device: Seq<char>,
)
    requires
        swap_scan(device, table) == Ok::<bool, SetupError>(true),
    ensures
        forall|k: int|
            0 <= k < device_part(devices, table, kb).len() ==> !is_swap_setup_step(
                #[trigger] device_part(devices, table, kb)[k],
                device,
            ),
    decreases devices.len(),
{
    if devices.len() > 0 {
        let d0 = devices[0];
        let dp = device_part(devices, table, kb);
        match swap_scan(d0, table) {
            Err(e) => {
                assert(dp =~~= seq![read_ahead_v(d0, kb), fail_v(e)]);
                assert forall|k: int| 0 <= k < dp.len() implies !is_swap_setup_step(
                    dp[k],
                    device,
                ) by {}
            },
            Ok(true) => {
                lemma_device_part_skips_existing(devices.drop_first(), table, kb, device);
                let rest = device_part(devices.drop_first(), table, kb);
                assert forall|k: int| 0 <= k < dp.len() implies !is_swap_setup_step(
                    dp[k],
                    device,
                ) by {
                    if k > 0 {
                        assert(dp[k] == rest[k - 1]);
                    }
                }
            },
            Ok(false) => {
                assert(d0 != device);
                lemma_device_part_skips_existing(devices.drop_first(), table, kb, device);
                let rest = device_part(devices.drop_first(), table, kb);
                assert forall|k: int| 0 <= k < dp.len() implies !is_swap_setup_step(
                    dp[k],
                    device,
                ) by {
                    if k == 1 {
                        assert(dp[k] == mkswap_v(d0));
                        assert(mkswap_v(d0)->argv.last() == d0);
                    } else if k == 2 {
                        assert(dp[k] == swapon_v(d0));
                        assert(swapon_v(d0)->argv.last() == d0);
                    } else if k > 2 {
                        assert(dp[k] == rest[k - 3]);
                    }
                }
            },
        }
    }
}

/// Idempotency of the swap orchestrator: a device the kernel swap table
/// already lists (under its full path or a suffix of it) is neither
/// formatted nor activated again, whatever else the plan does.
pub proof fn lemma_swap_idempotent(
    c: &SwapController,
    devices: Seq<Seq<char>>,
    table: Seq<char>,
    cfg: ConfigDoc,
    device: Seq<char>,
)
    requires
        swap_scan(device, table) == Ok::<bool, SetupError>(true),
    ensures
        forall|k: int|
            0 <= k < swap_plan(c, devices, table, cfg).len() ==> !is_swap_setup_step(
                #[trigger] swap_plan(c, devices, table, cfg)[k],
                device,
            ),
{
    let kb = c.read_ahead_kb as nat;
    lemma_device_part_skips_existing(devices, table, kb, device);
    let dp = device_part(devices, table, kb);
    let p = swap_plan(c, devices, table, cfg);
    if !device_part_failed(devices, table) {
        reveal_strlit("mkswap");
        reveal_strlit("swapon");
        reveal_strlit("sysctl");
        reveal_strlit("apiclient");
        reveal_strlit("chroot");
        assert("mkswap"@.len() == 6 && "swapon"@.len() == 6 && "sysctl"@.len() == 6
            && "apiclient"@.len() == 9 && "chroot"@.len() == 6);
        assert("mkswap"@[0] == 'm' && "swapon"@[0] == 's' && "sysctl"@[0] == 's' && "chroot"@[0]
            == 'c');
        assert("swapon"@[1] == 'w' && "sysctl"@[1] == 'y');
        let s = sysctl_part(c);
        let b = bottlerocket_part(c);
        let h = hack_part(c, cfg);
        let t = if hack_failed(c) {
            Seq::<ActionV>::empty()
        } else {
            taint_part(c.remove_taint, c.node_name, c.taint_key@)
        };
        assert(p == dp + s + b + h + t);
        assert forall|k: int| 0 <= k < p.len() implies !is_swap_setup_step(p[k], device) by {
            if k < dp.len() {
                assert(p[k] == dp[k]);
            } else if k < dp.len() + s.len() {
                assert(p[k] == s[k - dp.len()]);
                assert(s[k - dp.len()]->argv[0] == "sysctl"@);
            } else if k < dp.len() + s.len() + b.len() {
                assert(p[k] == b[k - dp.len() - s.len()]);
            } else if k < dp.len() + s.len() + b.len() + h.len() {
                assert(p[k] == h[k - dp.len() - s.len() - b.len()]);
                if c.hack_restart_kubelet_enable_swap && (c.cloud_provider is Gcp
                    || c.cloud_provider is Azure) {
                    let j = k - dp.len() - s.len() - b.len();
                    let r = restart_part();
                    if c.cloud_provider is Gcp && j >= 1 {
                        assert(h[j] == r[j - 1]);
                    }
                    if c.cloud_provider is Azure && j >= 2 {
                        assert(h[j] == r[j - 2]);
                    }
                }
            } else {
                assert(p[k] == t[k - dp.len() - s.len() - b.len() - h.len()]);
            }
        }
    }
}

proof fn lemma_device_part_no_writes(devices: Seq<Seq<char>>, table: Seq<char>, kb: nat)
    ensures
        forall|k: int|
            0 <= k < device_part(devices, table, kb).len() ==> !((
            #[trigger] device_part(devices, table, kb)[k]) is WriteConfig) && !(device_part(
                devices,
                table,
                kb,
            )[k] is WriteFile),
    decreases devices.len(),
{
    if devices.len() > 0 {
        let d0 = devices[0];
        let dp = device_part(devices, table, kb);
        lemma_device_part_no_writes(devices.drop_first(), table, kb);
        let rest = device_part(devices.drop_first(), table, kb);
        assert forall|k: int| 0 <= k < dp.len() implies !(dp[k] is WriteConfig) && !(dp[k]
            is WriteFile) by {
            match swap_scan(d0, table) {
                Err(e) => {},
                Ok(true) => {
                    if k > 0 {
                        assert(dp[k] == rest[k - 1]);
                    }
                },
                Ok(false) => {
                    if k > 2 {
                        assert(dp[k] == rest[k - 3]);
                    }
                },
            }
        }
    }
}

/// Provider-branch enforcement: when the config-patch strategy is requested
/// on a provider it does not support, the plan writes no file at all — no
/// config document and no drop-in — and (unless the per-device walk already
/// aborted) its last step is the fatal unsupported-provider error.
pub proof fn lemma_unsupported_provider_writes_nothing(
    c: &SwapController,
    devices: Seq<Seq<char>>,
    table: Seq<char>,
    cfg: ConfigDoc,
)
    requires
        c.hack_restart_kubelet_enable_swap,
        !(c.cloud_provider is Gcp),
        !(c.cloud_provider is Azure),
    ensures
        forall|k: int|
            0 <= k < swap_plan(c, devices, table, cfg).len() ==> !((
            #[trigger] swap_plan(c, devices, table, cfg)[k]) is WriteConfig) && !(swap_plan(
                c,
                devices,
                table,
                cfg,
            )[k] is WriteFile),
        !device_part_failed(devices, table) ==> swap_plan(c, devices, table, cfg).last() == fail_v(
            SetupError::UnsupportedProvider { provider: c.cloud_provider },
        ),
{
    let kb = c.read_ahead_kb as nat;
    lemma_device_part_no_writes(devices, table, kb);
    let dp = device_part(devices, table, kb);
    let p = swap_plan(c, devices, table, cfg);
    if !device_part_failed(devices, table) {
        let s = sysctl_part(c);
        let b = bottlerocket_part(c);
        let h = hack_part(c, cfg);
        assert(hack_failed(c));
        assert(p == dp + s + b + h + Seq::<ActionV>::empty());
        assert(h =~~= seq![fail_v(SetupError::UnsupportedProvider { provider: c.cloud_provider })]);
        assert forall|k: int| 0 <= k < p.len() implies !(p[k] is WriteConfig) && !(p[k]
            is WriteFile) by {
            if k < dp.len() {
                assert(p[k] == dp[k]);
            } else if k < dp.len() + s.len() {
                assert(p[k] == s[k - dp.len()]);
            } else if k < dp.len() + s.len() + b.len() {
                assert(p[k] == b[k - dp.len() - s.len()]);
            } else {
                assert(p[k] == h[k - dp.len() - s.len() - b.len()]);
            }
        }
        assert(p.last() == h[0]);
    }
}

/// The kubelet config path for `p`, as `config_path_for` describes.
pub fn kubelet_config_path(p: CloudProvider) -> (r: Option<&'static str>)
    ensures
        match r {
            Some(s) => config_path_for(p) == Some(s@),
            None => config_path_for(p) is None,
        },
{
    match p {
        CloudProvider::Gcp => Some("/host/home/kubernetes/kubelet-config.yaml"),
        CloudProvider::Azure => Some("/host/var/lib/kubelet/config.yaml"),
        _ => None,
    }
}

fn restart_commands() -> (acts: Vec<Action>)
    ensures
        acts.deep_view() == restart_part(),
{
    let mut a1: Vec<String> = Vec::new();
    a1.push("chroot".to_owned());
    a1.push("/host".to_owned());
    a1.push("systemctl".to_owned());
    a1.push("daemon-reload".to_owned());
    let mut a2: Vec<String> = Vec::new();
    a2.push("chroot".to_owned());
    a2.push("/host".to_owned());
    a2.push("systemctl".to_owned());
    a2.push("restart".to_owned());
    a2.push("kubelet.service".to_owned());
    proof {
        assert(a1.deep_view() =~~= seq!["chroot"@, "/host"@, "systemctl"@, "daemon-reload"@]);
        assert(a2.deep_view() =~~= seq![
            "chroot"@,
            "/host"@,
            "systemctl"@,
            "restart"@,
            "kubelet.service"@,
        ]);
    }
    let mut acts: Vec<Action> = Vec::new();
    acts.push(Action::Run { argv: a1 });
    acts.push(Action::Run { argv: a2 });
    proof {
        assert(acts.deep_view() =~~= restart_part());
    }
    acts
}

impl SwapController {
    /// The command formatting `device` as swap, as `mkswap_v` describes.
    pub fn mkswap(&self, device: &String) -> (a: Action)
        ensures
            a.deep_view() == mkswap_v(device@),
    {
        let mut argv: Vec<String> = Vec::new();
        argv.push("mkswap".to_owned());
        argv.push(device.clone());
        proof {
            assert(argv.deep_view() =~~= seq!["mkswap"@, device@]);
        }
        Action::Run { argv }
    }

    /// The command activating `device` as swap at the fixed shared priority,
    /// as `swapon_v` describes.
    pub fn swapon(&self, device: &String) -> (a: Action)
        ensures
            a.deep_view() == swapon_v(device@),
    {
        let mut argv: Vec<String> = Vec::new();
        argv.push("swapon".to_owned());
        argv.push("-p".to_owned());
        argv.push("10".to_owned());
        argv.push(device.clone());
        proof {
            assert(argv.deep_view() =~~= seq!["swapon"@, "-p"@, "10"@, device@]);
        }
        Action::Run { argv }
    }

    /// The command setting sysctl `key` to `value`, as `sysctl_v` describes.
    pub fn sysctl(&self, key: &str, value: usize) -> (a: Action)
        ensures
            a.deep_view() == sysctl_v(key@, value as nat),
    {
        let mut argv: Vec<String> = Vec::new();
        argv.push("sysctl".to_owned());
        let setting = String::from_str(key).concat("=").concat(usize_to_string(value).as_str());
        proof {
            assert(setting@ =~~= key@ + "="@ + dec_str(value as nat));
        }
        argv.push(setting);
        proof {
            assert(argv.deep_view() =~~= seq!["sysctl"@, key@ + "="@ + dec_str(value as nat)]);
        }
        Action::Run { argv }
    }

    /// Whether the kernel swap table `swap_table` already lists `device`, as
    /// `swap_scan` describes; a non-header line without a token is the fatal
    /// error.
    pub fn is_existing_swap(&self, device: &String, swap_table: &str) -> (r: Result<
        bool,
        SetupError,
    >)
        ensures
            r == swap_scan(device@, swap_table@),
    {
        let t = trim_ws(swap_table);
        let n0 = t.unicode_len();
        if n0 == 0 {
            return Ok(false);
        }
        let i0 = find_newline(t);
        if i0 == n0 {
            proof {
                assert(lines_of(t@) =~~= seq![t@]);
                assert(seq![t@].drop_first() =~~= Seq::<Seq<char>>::empty());
            }
            return Ok(false);
        }
        let mut rest: &str = t.substring_char(i0 + 1, n0);
        proof {
            assert(rest@ =~~= t@.skip(i0 as int + 1));
            assert(lines_of(t@) =~~= seq![t@.take(i0 as int)] + lines_of(t@.skip(i0 as int + 1)));
            assert(lines_of(t@).drop_first() =~~= lines_of(rest@));
        }
        loop
            invariant
                swap_scan(device@, swap_table@) == scan_lines(device@, lines_of(rest@)),
            decreases rest@.len(),
        {
            let n = rest.unicode_len();
            if n == 0 {
                return Ok(false);
            }
            let i = find_newline(rest);
            let line = rest.substring_char(0, i);
            let ghost ls = lines_of(rest@);
            proof {
                if i < n {
                    assert(ls =~~= seq![rest@.take(i as int)] + lines_of(rest@.skip(i as int + 1)));
                } else {
                    assert(ls =~~= seq![rest@]);
                    assert(rest@.take(i as int) =~~= rest@);
                }
                assert(ls[0] == line@);
            }
            match token_of_line(line) {
                None => {
                    return Err(SetupError::BadSwapTable);
                },
                Some(tok) => {
                    if str_ends_with(device.as_str(), tok) {
                        return Ok(true);
                    }
                    if i == n {
                        proof {
                            assert(ls.drop_first() =~~= Seq::<Seq<char>>::empty());
                        }
                        return Ok(false);
                    }
                    proof {
                        assert(ls.drop_first() =~~= lines_of(rest@.skip(i as int + 1)));
                        assert(scan_lines(device@, ls) == scan_lines(device@, ls.drop_first()));
                    }
                    let next = rest.substring_char(i + 1, n);
                    proof {
                        assert(next@ =~~= rest@.skip(i as int + 1));
                    }
                    rest = next;
                },
            }
        }
    }

    /// Decide the complete corrective plan for this run, as `swap_plan`
    /// describes.  `new_config` is the already-patched configuration
    /// document; it enters the plan only when the config-patch strategy is
    /// requested on a provider that supports it.
    pub fn setup(&self, devices: &Vec<String>, swap_table: &str, new_config: ConfigDoc) -> (plan:
        Vec<Action>)
        ensures
            plan.deep_view() == swap_plan(self, devices.deep_view(), swap_table@, new_config),
    {
        let ghost devs = devices.deep_view();
        let ghost tbl = swap_table@;
        let ghost kb = self.read_ahead_kb as nat;
        let mut plan: Vec<Action> = Vec::new();
        let n = devices.len();
        let mut i: usize = 0;
        proof {
            assert(devs.skip(0) =~~= devs);
            assert(plan.deep_view() + device_part(devs, tbl, kb) =~~= device_part(devs, tbl, kb));
        }
        loop
            invariant
                0 <= i <= n,
                n == devices@.len(),
                devs == devices.deep_view(),
                tbl == swap_table@,
                kb == self.read_ahead_kb as nat,
                device_part(devs, tbl, kb) =~~= plan.deep_view() + device_part(
                    devs.skip(i as int),
                    tbl,
                    kb,
                ),
                device_part_failed(devs, tbl) == device_part_failed(devs.skip(i as int), tbl),
            ensures
                plan.deep_view() =~~= device_part(devs, tbl, kb),
                !device_part_failed(devs, tbl),
            decreases n - i,
        {
            if i >= n {
                proof {
                    assert(devs.skip(n as int) =~~= Seq::<Seq<char>>::empty());
                    assert(plan.deep_view() + Seq::<ActionV>::empty() =~~= plan.deep_view());
                }
                break;
            }
            let ghost p0 = plan.deep_view();
            let ghost dtail = devs.skip(i as int);
            proof {
                assert(dtail.len() > 0);
                assert(dtail[0] == devs[i as int]);
                assert(dtail.drop_first() =~~= devs.skip(i as int + 1));
            }
            push_action(&mut plan, read_ahead_action(&devices[i], self.read_ahead_kb));
            match self.is_existing_swap(&devices[i], swap_table) {
                Err(e) => {
                    push_action(&mut plan, Action::Fail { error: e });
                    proof {
                        assert(device_part(dtail, tbl, kb) =~~= seq![
                            read_ahead_v(devs[i as int], kb),
                        ] + seq![fail_v(e)]);
                        assert(p0 + (seq![read_ahead_v(devs[i as int], kb)] + seq![fail_v(e)])
                            =~~= p0.push(read_ahead_v(devs[i as int], kb)).push(fail_v(e)));
                        assert(plan.deep_view() =~~= device_part(devs, tbl, kb));
                        assert(device_part_failed(devs, tbl));
                    }
                    return plan;
                },
                Ok(already) => {
                    if !already {
                        push_action(&mut plan, self.mkswap(&devices[i]));
                        push_action(&mut plan, self.swapon(&devices[i]));
                        proof {
                            let ra = read_ahead_v(devs[i as int], kb);
                            let mk = mkswap_v(devs[i as int]);
                            let sw = swapon_v(devs[i as int]);
                            assert(device_part(dtail, tbl, kb) =~~= seq![ra] + seq![mk, sw]
                                + device_part(devs.skip(i as int + 1), tbl, kb));
                            assert(p0 + (seq![ra] + seq![mk, sw] + device_part(
                                devs.skip(i as int + 1),
                                tbl,
                                kb,
                            )) =~~= p0.push(ra).push(mk).push(sw) + device_part(
                                devs.skip(i as int + 1),
                                tbl,
                                kb,
                            ));
                        }
                    } else {
                        proof {
                            let ra = read_ahead_v(devs[i as int], kb);
                            assert(device_part(dtail, tbl, kb) =~~= seq![ra] + device_part(
                                devs.skip(i as int + 1),
                                tbl,
                                kb,
                            ));
                            assert(p0 + (seq![ra] + device_part(devs.skip(i as int + 1), tbl, kb))
                                =~~= p0.push(ra) + device_part(devs.skip(i as int + 1), tbl, kb));
                        }
                    }
                    i = i + 1;
                },
            }
        }
        let ghost dp = device_part(devs, tbl, kb);
        if self.apply_sysctls {
            push_action(&mut plan, self.sysctl("vm.swappiness", self.vm_swappiness));
            push_action(&mut plan, self.sysctl("vm.min_free_kbytes", self.vm_min_free_kbytes));
            push_action(
                &mut plan,
                self.sysctl("vm.watermark_scale_factor", self.vm_watermark_scale_factor),
            );
        }
        proof {
            assert(plan.deep_view() =~~= dp + sysctl_part(self));
        }
        let ghost p1 = dp + sysctl_part(self);
        if self.bottlerocket_enable_swap {
            let mut argv: Vec<String> = Vec::new();
            argv.push("apiclient".to_owned());
            argv.push("set".to_owned());
            argv.push("settings.kubernetes.memory-swap-behavior=LimitedSwap".to_owned());
            proof {
                assert(argv.deep_view() =~~= seq![
                    "apiclient"@,
                    "set"@,
                    "settings.kubernetes.memory-swap-behavior=LimitedSwap"@,
                ]);
            }
            push_action(&mut plan, Action::Run { argv });
        }
        proof {
            assert(plan.deep_view() =~~= p1 + bottlerocket_part(self));
        }
        let ghost p2 = p1 + bottlerocket_part(self);
        if self.hack_restart_kubelet_enable_swap {
            match self.cloud_provider {
                CloudProvider::Gcp => {
                    push_action(
                        &mut plan,
                        Action::WriteConfig {
                            path: "/host/home/kubernetes/kubelet-config.yaml".to_owned(),
                            doc: new_config,
                        },
                    );
                    append_actions(&mut plan, restart_commands());
                },
                CloudProvider::Azure => {
                    push_action(
                        &mut plan,
                        Action::WriteConfig {
                            path: "/host/var/lib/kubelet/config.yaml".to_owned(),
                            doc: new_config,
                        },
                    );
                    push_action(
                        &mut plan,
                        Action::WriteFile {
                            path: "/host/etc/systemd/system/kubelet.service.d/99-enable-swap.conf".to_owned(),
                            contents: "[Service]\nEnvironment=\"KUBELET_CONFIG_FILE_FLAGS=--config /var/lib/kubelet/config.yaml\"".to_owned(),
                        },
                    );
                    append_actions(&mut plan, restart_commands());
                },
                _ => {
                    push_action(
                        &mut plan,
                        Action::Fail {
                            error: SetupError::UnsupportedProvider {
                                provider: self.cloud_provider,
                            },
                        },
                    );
                    proof {
                        assert(plan.deep_view() =~~= p2 + hack_part(self, new_config));
                        assert(plan.deep_view() =~~= swap_plan(self, devs, tbl, new_config));
                    }
                    return plan;
                },
            }
        }
        proof {
            assert(plan.deep_view() =~~= p2 + hack_part(self, new_config));
        }
        let t = taint_actions(self.remove_taint, &self.node_name, &self.taint_key);
        append_actions(&mut plan, t);
        proof {
            assert(plan.deep_view() =~~= p2 + hack_part(self, new_config) + taint_part(
                self.remove_taint,
                self.node_name,
                self.taint_key@,
            ));
            assert(plan.deep_view() =~~= swap_plan(self, devs, tbl, new_config));
        }
        plan
    }
}

} // verus!
