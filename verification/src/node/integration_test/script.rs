//! The steps that the source and the receivers of a transfer go through.
//!
//! A `Script` says which step comes next, and is told how it went. The first step that fails ends
//! the script, and a status is left behind either way.

use vstd::prelude::*;

use crate::node::integration_test::artifacts::IntegrationNodeRole;

verus! {

/// A step of a script.
#[derive(Clone, Copy, Debug, PartialEq, Eq, Structural)]
pub enum Step {
    /// Wait until the controller says that the topology is ready.
    AwaitTopology,
    /// Ask the controller for a group, and wait for it.
    CreateGroup,
    /// Tell the receivers about the group.
    WriteGroupInfo,
    /// Ask the controller for the routes of the group, and wait for them.
    SetRoutes,
    /// Wait until every receiver is ready.
    AwaitReceivers,
    /// Read what is to be sent.
    ReadSource,
    /// Keep a copy of what is sent, with its digest.
    KeepSource,
    /// Start the session.
    StartSession,
    /// Wait until the session has completed.
    AwaitSession,
    /// Leave behind how fast the transfer was.
    WriteMetrics,
    /// Wait for what the source tells about the group.
    AwaitGroupInfo,
    /// Join the group.
    JoinGroup,
    /// Tell the source that this receiver is ready.
    MarkReady,
    /// Make sure that something arrived, and keep it with its digest.
    KeepSink,
}

/// Where a script stands.
#[derive(Clone, Copy, Debug, PartialEq, Eq, Structural)]
pub enum Progress {
    /// A step is to be taken.
    Taking(Step),
    /// All steps were taken, or one failed: a status is to be left behind.
    Reporting { ok: bool },
}

/// The steps of the source, in order.
pub open spec fn source_steps() -> Seq<Step> {
    seq![
        Step::AwaitTopology,
        Step::CreateGroup,
        Step::WriteGroupInfo,
        Step::SetRoutes,
        Step::AwaitReceivers,
        Step::ReadSource,
        Step::KeepSource,
        Step::StartSession,
        Step::AwaitSession,
        Step::WriteMetrics,
    ]
}

/// The steps of a receiver, in order.
pub open spec fn receiver_steps() -> Seq<Step> {
    seq![
        Step::AwaitTopology,
        Step::AwaitGroupInfo,
        Step::JoinGroup,
        Step::StartSession,
        Step::MarkReady,
        Step::AwaitSession,
        Step::KeepSink,
        Step::WriteMetrics,
    ]
}

/// The steps of a node in a transfer.
pub open spec fn steps(is_source: bool) -> Seq<Step> {
    if is_source {
        source_steps()
    } else {
        receiver_steps()
    }
}

/// Where a script stands after a number of steps that went well.
pub open spec fn standing(is_source: bool, taken: int) -> Progress {
    if taken < steps(is_source).len() {
        Progress::Taking(steps(is_source)[taken])
    } else {
        Progress::Reporting { ok: true }
    }
}

/// Where a script stands after steps that went well or failed, one after the other.
pub open spec fn after_steps(is_source: bool, outcomes: Seq<bool>) -> Progress
    decreases outcomes.len(),
{
    if outcomes.len() == 0 {
        standing(is_source, 0)
    } else {
        match after_steps(is_source, outcomes.drop_last()) {
            Progress::Taking(_) => if outcomes.last() {
                standing(is_source, outcomes.len() as int)
            } else {
                Progress::Reporting { ok: false }
            },
            done => done,
        }
    }
}

/// A transfer is reported as a success if and only if each of its steps went well.
pub proof fn law_success_takes_every_step(is_source: bool, outcomes: Seq<bool>)
    ensures
        after_steps(is_source, outcomes) == (Progress::Reporting { ok: true }) <==> {
            &&& outcomes.len() >= steps(is_source).len()
            &&& forall|i: int| 0 <= i < steps(is_source).len() ==> #[trigger] outcomes[i]
        },
    decreases outcomes.len(),
{
    lemma_after_steps(is_source, outcomes);
}

/// As long as all steps go well, the next one is taken; the first that fails ends the script.
proof fn lemma_after_steps(is_source: bool, outcomes: Seq<bool>)
    ensures
        ({
            let n = steps(is_source).len();
            let well = forall|i: int| 0 <= i < outcomes.len() && i < n ==> #[trigger] outcomes[i];
            after_steps(is_source, outcomes) == if !well {
                Progress::Reporting { ok: false }
            } else {
                standing(is_source, outcomes.len() as int)
            }
        }),
    decreases outcomes.len(),
{
    if outcomes.len() > 0 {
        let earlier = outcomes.drop_last();
        let n = steps(is_source).len();
        lemma_after_steps(is_source, earlier);
        if exists|i: int| 0 <= i < earlier.len() && i < n && !(#[trigger] earlier[i]) {
            let i = choose|i: int| 0 <= i < earlier.len() && i < n && !(#[trigger] earlier[i]);
            assert(!outcomes[i]);
        } else {
            assert forall|i: int| 0 <= i < earlier.len() && i < n implies #[trigger] outcomes[i] by {
                assert(earlier[i]);
            }
            assert(outcomes[outcomes.len() - 1] == outcomes.last());
        }
    }
}

/// The script of a node in a transfer.
#[derive(Debug)]
pub struct Script {
    pub is_source: bool,
    /// The steps that went well.
    pub taken: usize,
    /// Why a step failed.
    pub failure: Option<String>,
}

impl Script {
    /// The script of a role. A router takes no part in a transfer.
    pub fn begin(role: Option<IntegrationNodeRole>) -> (script: Option<Self>)
        ensures
            match script {
                Some(script) => {
                    &&& role == Some(
                        if script.is_source {
                            IntegrationNodeRole::Source
                        } else {
                            IntegrationNodeRole::Receiver
                        },
                    )
                    &&& script.taken == 0
                    &&& script.failure is None
                },
                None => role is None || role == Some(IntegrationNodeRole::Router),
            },
    {
        match role {
            Some(IntegrationNodeRole::Source) => Some(
                Script { is_source: true, taken: 0, failure: None },
            ),
            Some(IntegrationNodeRole::Receiver) => Some(
                Script { is_source: false, taken: 0, failure: None },
            ),
            _ => None,
        }
    }

    /// Where the script stands.
    pub open spec fn standing(&self) -> Progress {
        if self.failure is Some {
            Progress::Reporting { ok: false }
        } else {
            standing(self.is_source, self.taken as int)
        }
    }

    /// Where the script stands.
    pub fn progress(&self) -> (progress: Progress)
        ensures
            progress == self.standing(),
    {
        if self.failure.is_some() {
            return Progress::Reporting { ok: false };
        }
        let step = if self.is_source {
            match self.taken {
                0 => Step::AwaitTopology,
                1 => Step::CreateGroup,
                2 => Step::WriteGroupInfo,
                3 => Step::SetRoutes,
                4 => Step::AwaitReceivers,
                5 => Step::ReadSource,
                6 => Step::KeepSource,
                7 => Step::StartSession,
                8 => Step::AwaitSession,
                9 => Step::WriteMetrics,
                _ => {
                    return Progress::Reporting { ok: true };
                },
            }
        } else {
            match self.taken {
                0 => Step::AwaitTopology,
                1 => Step::AwaitGroupInfo,
                2 => Step::JoinGroup,
                3 => Step::StartSession,
                4 => Step::MarkReady,
                5 => Step::AwaitSession,
                6 => Step::KeepSink,
                7 => Step::WriteMetrics,
                _ => {
                    return Progress::Reporting { ok: true };
                },
            }
        };
        Progress::Taking(step)
    }

    /// The step went well.
    pub fn step_done(&mut self) -> (progress: Progress)
        requires
            old(self).standing() is Taking,
        ensures
            *final(self) == (Script { taken: (old(self).taken + 1) as usize, ..*old(self) }),
            progress == final(self).standing(),
            progress == standing(old(self).is_source, old(self).taken + 1),
    {
        self.taken = self.taken + 1;
        self.progress()
    }

    /// The step failed.
    pub fn step_failed(&mut self, message: String) -> (progress: Progress)
        requires
            old(self).standing() is Taking,
        ensures
            *final(self) == (Script { failure: Some(message), ..*old(self) }),
            progress == (Progress::Reporting { ok: false }),
    {
        self.failure = Some(message);
        Progress::Reporting { ok: false }
    }

    /// The status that is left behind.
    pub fn status(&self) -> (status: String)
        ensures
            status@ == match self.failure {
                Some(message) => "error: "@ + message@,
                None => "ok"@,
            },
    {
        match &self.failure {
            Some(message) => {
                let mut status = "error: ".to_owned();
                status.append(message.as_str());
                status
            },
            None => "ok".to_owned(),
        }
    }
}

/// Why a step failed that was waited for in vain. `subject` is the directory of the artifacts, or
/// the file with what the source tells about the group.
pub fn timeout_message(step: Step, subject: &str) -> (message: String)
    ensures
        message@ == match step {
            Step::AwaitTopology => "timed out waiting for TopologyReady"@,
            Step::CreateGroup => "timed out waiting for GroupCreated"@,
            Step::AwaitReceivers => "timed out waiting for receiver readiness markers in "@
                + subject@,
            _ => "timed out waiting for "@ + subject@,
        },
{
    match step {
        Step::AwaitTopology => "timed out waiting for TopologyReady".to_owned(),
        Step::CreateGroup => "timed out waiting for GroupCreated".to_owned(),
        Step::AwaitReceivers => {
            let mut message = "timed out waiting for receiver readiness markers in ".to_owned();
            message.append(subject);
            message
        },
        _ => {
            let mut message = "timed out waiting for ".to_owned();
            message.append(subject);
            message
        },
    }
}

/// Whether a node takes one step before another.
pub open spec fn before(is_source: bool, first: Step, then: Step) -> bool {
    exists|i: int, j: int|
        0 <= i < j < steps(is_source).len() && #[trigger] steps(is_source)[i] == first
            && #[trigger] steps(is_source)[j] == then
}

/// The source tells the receivers about the group once it has one, and sends only when its routes
/// are set and all receivers are ready. What it sends is read and kept before. The transfer is
/// measured once the session has completed.
pub proof fn law_source_sends_to_ready_receivers()
    ensures
        before(true, Step::AwaitTopology, Step::CreateGroup),
        before(true, Step::CreateGroup, Step::WriteGroupInfo),
        before(true, Step::WriteGroupInfo, Step::SetRoutes),
        before(true, Step::SetRoutes, Step::AwaitReceivers),
        before(true, Step::AwaitReceivers, Step::ReadSource),
        before(true, Step::ReadSource, Step::KeepSource),
        before(true, Step::KeepSource, Step::StartSession),
        before(true, Step::StartSession, Step::AwaitSession),
        before(true, Step::AwaitSession, Step::WriteMetrics),
        steps(true).len() == 10,
        steps(true).no_duplicates(),
{
    let all = steps(true);
    assert(all[0] == Step::AwaitTopology && all[1] == Step::CreateGroup);
    assert(all[2] == Step::WriteGroupInfo && all[3] == Step::SetRoutes);
    assert(all[4] == Step::AwaitReceivers && all[5] == Step::ReadSource);
    assert(all[6] == Step::KeepSource && all[7] == Step::StartSession);
    assert(all[8] == Step::AwaitSession && all[9] == Step::WriteMetrics);
}

/// A receiver joins the group that the source told it about, and says that it is ready only when its
/// session has started. It keeps what arrived once the session has completed.
pub proof fn law_receivers_are_ready_before_they_say_so()
    ensures
        before(false, Step::AwaitTopology, Step::AwaitGroupInfo),
        before(false, Step::AwaitGroupInfo, Step::JoinGroup),
        before(false, Step::JoinGroup, Step::StartSession),
        before(false, Step::StartSession, Step::MarkReady),
        before(false, Step::MarkReady, Step::AwaitSession),
        before(false, Step::AwaitSession, Step::KeepSink),
        before(false, Step::KeepSink, Step::WriteMetrics),
        steps(false).len() == 8,
        steps(false).no_duplicates(),
{
    let all = steps(false);
    assert(all[0] == Step::AwaitTopology && all[1] == Step::AwaitGroupInfo);
    assert(all[2] == Step::JoinGroup && all[3] == Step::StartSession);
    assert(all[4] == Step::MarkReady && all[5] == Step::AwaitSession);
    assert(all[6] == Step::KeepSink && all[7] == Step::WriteMetrics);
}

/// Steps are taken one after the other while they go well, up to the last one. A step that fails ends
/// the script, whatever is said after that.
pub proof fn law_steps_are_taken_in_turn(script: Script, is_source: bool, taken: int, outcomes: Seq<bool>)
    requires
        0 <= taken,
    ensures
        taken < steps(is_source).len() ==> standing(is_source, taken) == Progress::Taking(
            steps(is_source)[taken],
        ),
        taken >= steps(is_source).len() ==> standing(is_source, taken) == (Progress::Reporting {
            ok: true,
        }),
        script.failure is Some ==> script.standing() == (Progress::Reporting { ok: false }),
        script.failure is None ==> script.standing() == standing(
            script.is_source,
            script.taken as int,
        ),
        after_steps(is_source, outcomes) is Reporting ==> after_steps(
            is_source,
            outcomes.push(true),
        ) == after_steps(is_source, outcomes) && after_steps(is_source, outcomes.push(false))
            == after_steps(is_source, outcomes),
        after_steps(is_source, outcomes) is Taking ==> after_steps(is_source, outcomes.push(false))
            == (Progress::Reporting { ok: false }),
{
    assert(outcomes.push(true).drop_last() =~= outcomes);
    assert(outcomes.push(false).drop_last() =~= outcomes);
}

} // verus!
