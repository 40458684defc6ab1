//! Convergers: what applies a scenario's prepare, converge, idempotence and
//! cleanup phases.
use vstd::prelude::*;

use crate::config::PhaseDefinition;
use crate::provisioner::AnsibleProvisioner;
use crate::schema::DummyStatus;
use crate::state::{LifecyclePhase, Resource};
use crate::text::owned;

verus! {

/// Why a converger phase failed.
pub struct ConvergerError(pub String);

/// Runs one converger phase of a scenario.
///
/// Implementations talk to the outside world; nothing is assumed of what
/// they return.
pub trait Converger {
    /// Runs `phase` of the scenario at `scenario_path`, with the generated
    /// inventory view, if any, and the resources the scenario sees.
    fn run(
        &self,
        scenario_path: &str,
        phase: LifecyclePhase,
        definition: &PhaseDefinition,
        inventory: Option<&str>,
        resources: &Vec<&Resource>,
    ) -> Result<(), ConvergerError>;
}

/// Pretends that every converger phase succeeds, unless told otherwise.
pub struct DummyConverger;

impl DummyConverger {
    /// Succeeds unless the phase asks for an error.
    pub fn run_phase(&self, scenario_path: &str, definition: &PhaseDefinition) -> (r: Result<
        (),
        ConvergerError,
    >)
        ensures
            r is Err <==> definition.status == DummyStatus::Error,
    {
        match definition.dummy_status() {
            DummyStatus::Error => {
                let mut message = owned("dummy phase error for `");
                message.append(scenario_path);
                message.append("`");
                Err(ConvergerError(message))
            },
            _ => Ok(()),
        }
    }
}

impl Converger for DummyConverger {
    fn run(
        &self,
        scenario_path: &str,
        phase: LifecyclePhase,
        definition: &PhaseDefinition,
        inventory: Option<&str>,
        resources: &Vec<&Resource>,
    ) -> (r: Result<(), ConvergerError>)
        ensures
            r is Err <==> definition.status == DummyStatus::Error,
    {
        self.run_phase(scenario_path, definition)
    }
}


/// How the Ansible converger runs a phase.
pub enum ConvergerRoute {
    /// Run the phase's playbook with this action name.
    Ansible(&'static str),
    /// Let the dummy converger run it.
    Dummy,
    /// Refuse it with this reason.
    Refuse(&'static str),
}

/// Runs Ansible converger phases, with explicit dummy overrides.
pub struct AnsibleConverger {
    pub runtime: AnsibleProvisioner,
    pub default_is_ansible: bool,
}

impl AnsibleConverger {
    /// A converger running playbooks from `working_directory`.
    pub fn new(default_is_ansible: bool, working_directory: &str) -> (r: AnsibleConverger)
        ensures
            r.default_is_ansible == default_is_ansible,
            r.runtime.working_directory@ == working_directory@,
    {
        AnsibleConverger {
            runtime: AnsibleProvisioner::new(default_is_ansible, working_directory),
            default_is_ansible,
        }
    }

    /// How a phase runs: its playbook for prepare, converge or cleanup when
    /// it has an `ansible` mapping (other phases are refused); otherwise the
    /// dummy converger, unless Ansible is the default and the phase does
    /// not name the dummy adapter.
    pub fn route(&self, phase: LifecyclePhase, definition: &PhaseDefinition) -> (r: ConvergerRoute)
        ensures
            (definition.playbook is Some && definition.vars is Some) ==> match phase {
                LifecyclePhase::Prepare => r == ConvergerRoute::Ansible("prepare"),
                LifecyclePhase::Converge => r == ConvergerRoute::Ansible("converge"),
                LifecyclePhase::Cleanup => r == ConvergerRoute::Ansible("cleanup"),
                _ => r is Refuse,
            },
            !(definition.playbook is Some && definition.vars is Some) ==> (r is Refuse <==> (
            self.default_is_ansible && !definition.dummy_override)),
            !(definition.playbook is Some && definition.vars is Some) ==> !(r is Ansible),
    {
        if definition.ansible().is_some() {
            match phase {
                LifecyclePhase::Prepare => ConvergerRoute::Ansible("prepare"),
                LifecyclePhase::Converge => ConvergerRoute::Ansible("converge"),
                LifecyclePhase::Cleanup => ConvergerRoute::Ansible("cleanup"),
                _ => ConvergerRoute::Refuse("unsupported Ansible converger phase"),
            }
        } else if self.default_is_ansible && !definition.is_dummy_override() {
            ConvergerRoute::Refuse("the Ansible converger requires an explicit `ansible` phase mapping")
        } else {
            ConvergerRoute::Dummy
        }
    }
}

} // verus!
