//! Switching the active version of a managed tool: the settings to save and
//! the steps to take, in order, for the caller to perform.
use crate::config::{with_version, Config};
use crate::layout::string_views;
use crate::service::ServiceKind;
use crate::symlinks::pair_views;
use crate::tools::{info, spec_key, spec_service_kind, ManagedTool};
use vstd::prelude::*;

verus! {

/// One step of a version switch.
#[derive(Debug, Clone, PartialEq, Eq)]
pub enum SwitchStep {
    /// Save the new settings.
    SaveConfig,
    /// Stop nginx (it was running).
    StopNginx,
    /// Point `bin/<tool>/current` at the version: `(tool, version)`.
    SetCurrent(String, String),
    /// Give the nginx binary the capability to bind low ports.
    SetNginxCap,
    /// Start nginx again.
    StartNginx,
    /// Replace the running version of a service with the requested one.
    ReplaceService(ServiceKind, String),
    /// Make sure the requested PHP has its command-line binary.
    EnsurePhpCli(String),
}

/// A switch step as plain values.
pub enum StepView {
    SaveConfig,
    StopNginx,
    SetCurrent(Seq<char>, Seq<char>),
    SetNginxCap,
    StartNginx,
    ReplaceService(ServiceKind, Seq<char>),
    EnsurePhpCli(Seq<char>),
}

pub open spec fn step_view(s: SwitchStep) -> StepView {
    match s {
        SwitchStep::SaveConfig => StepView::SaveConfig,
        SwitchStep::StopNginx => StepView::StopNginx,
        SwitchStep::SetCurrent(t, v) => StepView::SetCurrent(t@, v@),
        SwitchStep::SetNginxCap => StepView::SetNginxCap,
        SwitchStep::StartNginx => StepView::StartNginx,
        SwitchStep::ReplaceService(k, v) => StepView::ReplaceService(k, v@),
        SwitchStep::EnsurePhpCli(v) => StepView::EnsurePhpCli(v@),
    }
}

pub open spec fn step_views(v: Seq<SwitchStep>) -> Seq<StepView> {
    v.map_values(|s: SwitchStep| step_view(s))
}

/// The steps of switching `tool` to the version `requested`, which resolves
/// to the installed `full`:
/// - nginx: save, stop it if it was running, repoint `current`, give the new
///   binary its capability, and start it again if it was running;
/// - another tool with a service: save, then replace the service's version;
///   for PHP, then make sure its command-line binary is there;
/// - a tool without a service: save, then repoint `current`.
pub open spec fn spec_switch_steps(tool: ManagedTool, requested: Seq<char>, full: Seq<char>, nginx_running: bool) -> Seq<StepView> {
    if tool == ManagedTool::Nginx {
        seq![StepView::SaveConfig] + (if nginx_running { seq![StepView::StopNginx] } else { seq![] }) + seq![
            StepView::SetCurrent("nginx"@, full),
            StepView::SetNginxCap,
        ] + (if nginx_running { seq![StepView::StartNginx] } else { seq![] })
    } else {
        match spec_service_kind(tool) {
            Some(k) => seq![StepView::SaveConfig, StepView::ReplaceService(k, requested)] + (if tool == ManagedTool::Php {
                seq![StepView::EnsurePhpCli(requested)]
            } else {
                seq![]
            }),
            None => seq![StepView::SaveConfig, StepView::SetCurrent(spec_key(tool), full)],
        }
    }
}

impl SwitchStep {
    /// A step whose failure does not stop the switch: stopping nginx, its
    /// capability, and the PHP command-line binary. Any other failing step
    /// ends the switch with its error.
    pub fn is_best_effort(&self) -> (b: bool)
        ensures
            b <==> (self is StopNginx || self is SetNginxCap || self is EnsurePhpCli),
    {
        match self {
            SwitchStep::StopNginx => true,
            SwitchStep::SetNginxCap => true,
            SwitchStep::EnsurePhpCli(_) => true,
            _ => false,
        }
    }
}

/// Switch `tool` to the version `requested`: `resolved` is the installed
/// version it resolves to, if any (else the requested text is used as is),
/// and `nginx_running` whether nginx runs now. Gives the settings to save —
/// `cfg` with the tool's version set to the full version (and, for PHP, the
/// PHP version too), nothing else changed — and the steps to take, in order
/// (see [`spec_switch_steps`]).
pub fn switch_plan(cfg: &Config, tool: ManagedTool, requested: &str, resolved: Option<String>, nginx_running: bool) -> (r: (
    Config,
    Vec<SwitchStep>,
))
    ensures
        ({
            let full = match resolved {
                Some(f) => f@,
                None => requested@,
            };
            &&& r.0.tld@ == cfg.tld@
            &&& r.0.php_version@ == (if tool == ManagedTool::Php { full } else { cfg.php_version@ })
            &&& r.0.services == cfg.services
            &&& r.0.shell_integration == cfg.shell_integration
            &&& pair_views(r.0.versions@) == with_version(pair_views(cfg.versions@), spec_key(tool), full)
            &&& string_views(r.0.symlinks@) == string_views(cfg.symlinks@)
            &&& step_views(r.1@) == spec_switch_steps(tool, requested@, full, nginx_running)
        }),
{
    let full = match resolved {
        Some(f) => f,
        None => requested.to_string(),
    };
    let ti = info(tool);
    let is_php = match tool {
        ManagedTool::Php => true,
        _ => false,
    };
    let is_nginx = match tool {
        ManagedTool::Nginx => true,
        _ => false,
    };
    let next = cfg.with_tool_version(ti.key, full.as_str(), is_php);
    let mut steps: Vec<SwitchStep> = Vec::new();
    steps.push(SwitchStep::SaveConfig);
    if is_nginx {
        if nginx_running {
            steps.push(SwitchStep::StopNginx);
        }
        steps.push(SwitchStep::SetCurrent(String::from_str("nginx"), full.clone()));
        steps.push(SwitchStep::SetNginxCap);
        if nginx_running {
            steps.push(SwitchStep::StartNginx);
        }
    } else {
        match ti.service_kind {
            Some(k) => {
                steps.push(SwitchStep::ReplaceService(k, requested.to_string()));
                if is_php {
                    steps.push(SwitchStep::EnsurePhpCli(requested.to_string()));
                }
            },
            None => {
                steps.push(SwitchStep::SetCurrent(ti.key.to_string(), full.clone()));
            },
        }
    }
    assert(step_views(steps@) =~= spec_switch_steps(tool, requested@, full@, nginx_running));
    (next, steps)
}

} // verus!
