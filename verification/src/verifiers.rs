//! Verifiers: what runs a scenario's named tests.
use vstd::prelude::*;

use crate::config::{test_verifier, Test};
use crate::inventory::AnsibleInventory;
use crate::provisioner::AnsibleProvisioner;
use crate::schema::DummyStatus;
use crate::state::{Resource, VerifierStatus};

verus! {

/// Why a test could not be run.
pub struct VerifierError(pub String);

/// Runs one named test of a scenario.
///
/// Implementations talk to the outside world; nothing is assumed of what
/// they return.
pub trait Verifier {
    /// Runs the test `test_name` of the scenario at `scenario_path`, with
    /// the generated inventory view, if any, and the resources the scenario
    /// sees.
    fn verify(
        &self,
        scenario_path: &str,
        test_name: &str,
        test: &Test,
        inventory: Option<&str>,
        resources: &Vec<&Resource>,
    ) -> Result<VerifierStatus, VerifierError>;
}

/// The result a dummy test is told to produce.
pub open spec fn dummy_result(status: DummyStatus) -> VerifierStatus {
    match status {
        DummyStatus::Success => VerifierStatus::Pass,
        DummyStatus::Fail => VerifierStatus::Fail,
        DummyStatus::Error => VerifierStatus::Error,
    }
}

/// Returns the configured result of every test without running anything.
pub struct DummyVerifier;

impl DummyVerifier {
    /// The configured result of a test.
    pub fn result_of(&self, test: &Test) -> (r: VerifierStatus)
        ensures
            r == dummy_result(test.status),
    {
        match test.status {
            DummyStatus::Success => VerifierStatus::Pass,
            DummyStatus::Fail => VerifierStatus::Fail,
            DummyStatus::Error => VerifierStatus::Error,
        }
    }
}

impl Verifier for DummyVerifier {
    fn verify(
        &self,
        scenario_path: &str,
        test_name: &str,
        test: &Test,
        inventory: Option<&str>,
        resources: &Vec<&Resource>,
    ) -> (r: Result<VerifierStatus, VerifierError>)
        ensures
            r matches Ok(s) && s == dummy_result(test.status),
    {
        Ok(self.result_of(test))
    }
}


/// How a test runs.
pub enum VerifierRoute {
    /// Its Ansible playbook.
    Ansible,
    /// The dummy verifier.
    Dummy,
    /// pytest, on its path.
    Pytest,
    /// It cannot run, for this reason.
    Refuse(&'static str),
}

/// Runs named tests with the verifier each selects: Ansible playbooks,
/// pytest (and testinfra through it), or the dummy verifier.
pub struct RuntimeVerifier {
    pub default_verifier: String,
    pub ansible: AnsibleProvisioner,
    pub working_directory: String,
    pub inventory: AnsibleInventory,
}

impl RuntimeVerifier {
    /// How a test runs: with its own verifier, or the default one.
    pub fn route(&self, test: &Test) -> (r: VerifierRoute)
        ensures
            test_verifier(*test, self.default_verifier@) == "ansible"@ ==> (r is Ansible
                <==> test.ansible is Some),
            test_verifier(*test, self.default_verifier@) == "ansible"@ ==> (r is Refuse
                <==> test.ansible is None),
            test_verifier(*test, self.default_verifier@) == "dummy"@ ==> r is Dummy,
            test_verifier(*test, self.default_verifier@) != "ansible"@ && test_verifier(
                *test,
                self.default_verifier@,
            ) != "dummy"@ ==> (r is Pytest <==> test.pytest is Some) && (r is Refuse
                <==> test.pytest is None),
    {
        let selected: &str = match &test.verifier {
            Some(v) => v.as_str(),
            None => self.default_verifier.as_str(),
        };
        proof {
            reveal_strlit("ansible");
            reveal_strlit("dummy");
            assert("dummy"@[0] != "ansible"@[0]);
        }
        if crate::text::str_eq(selected, "ansible") {
            if test.ansible.is_some() {
                VerifierRoute::Ansible
            } else {
                VerifierRoute::Refuse("ansible verifier requires a playbook")
            }
        } else if crate::text::str_eq(selected, "dummy") {
            VerifierRoute::Dummy
        } else if test.pytest.is_some() {
            VerifierRoute::Pytest
        } else {
            VerifierRoute::Refuse("pytest verifier requires a test path")
        }
    }
}

} // verus!
