//! The device coordinator's decision logic: it owns the in-flight test and
//! the valve state, merges inbound messages with client actions, aggregates
//! the settings dump into device properties, and hands the resulting
//! commands and notifications back to the caller. The caller runs the
//! reader, writer and timer loops and owns the serial port.

use vstd::prelude::*;

use crate::multidev::DeviceSynchroniser;
use crate::multidev::StepDirective;
use crate::num::Concentration;
use crate::num::Ratio;
use crate::protocol::Command;
use crate::protocol::Message;
use crate::protocol::SettingMessage;
use crate::test::step_spec;
use crate::test::StepOutcome;
use crate::test::Test;
use crate::test::TestNotification;
use crate::test::ValveState;
use crate::test_config::config_valid;
use crate::test_config::TestConfig;

verus! {

/// The instrument's identity and service record, assembled from the
/// settings dump. Run time is exact: `decaminutes * 10 / 60` hours.
#[derive(Clone, Debug, PartialEq)]
pub struct DeviceProperties {
    pub serial_number: String,
    pub run_time_since_last_service_hours: Ratio,
    pub last_service_month: u8,
    pub last_service_year: u16,
}

/// What the device session reports to the embedder.
#[derive(Clone, Debug, PartialEq)]
pub enum DeviceNotification {
    /// The latest reading, roughly once a second, test or no test.
    Sample { particle_conc: Concentration },
    TestStarted,
    TestCompleted { fit_factors: Vec<Ratio> },
    TestCancelled,
    ConnectionClosed,
    DeviceProperties(DeviceProperties),
}

/// What the embedder can ask of a connected device.
pub enum Action {
    StartTest { config: TestConfig, device_synchroniser: Option<DeviceSynchroniser> },
    CancelTest,
    CloseConnection,
}

/// The two-digit year the device reports, expanded to a full year.
pub open spec fn full_year(y2: u8) -> u16 {
    if y2 < 80 {
        (2000 + y2) as u16
    } else {
        (1900 + y2) as u16
    }
}

/// Accumulates the four device properties from successive settings lines
/// and publishes them exactly once, when all four are first known.
pub struct DevicePropertiesCollector {
    pub serial_number: Option<String>,
    pub run_time_since_last_service_hours: Option<Ratio>,
    pub last_service_month: Option<u8>,
    pub last_service_year: Option<u16>,
    pub published: bool,
}

/// How one settings line changes the collector's four fields: the three
/// identity settings fill their slot (run time converted to hours, the
/// two-digit year expanded), everything else leaves them alone.
pub open spec fn collector_step(
    pre: DevicePropertiesCollector,
    setting: SettingMessage,
    post: DevicePropertiesCollector,
) -> bool {
    match setting {
        SettingMessage::SerialNumber(s) => (post.serial_number matches Some(x) && x@ == s@)
            && post.run_time_since_last_service_hours == pre.run_time_since_last_service_hours
            && post.last_service_month == pre.last_service_month && post.last_service_year
            == pre.last_service_year,
        SettingMessage::RunTimeSinceService { decaminutes } => post.run_time_since_last_service_hours
            == Some(Ratio { num: (decaminutes * 10) as u128, den: 60 }) && post.serial_number
            == pre.serial_number && post.last_service_month == pre.last_service_month
            && post.last_service_year == pre.last_service_year,
        SettingMessage::DateLastServiced { month, year } => post.last_service_month == Some(month)
            && post.last_service_year == Some(full_year(year)) && post.serial_number
            == pre.serial_number && post.run_time_since_last_service_hours
            == pre.run_time_since_last_service_hours,
        _ => post.serial_number == pre.serial_number && post.run_time_since_last_service_hours
            == pre.run_time_since_last_service_hours && post.last_service_month
            == pre.last_service_month && post.last_service_year == pre.last_service_year,
    }
}

/// The published properties are exactly the collector's four fields.
pub open spec fn properties_of(p: DeviceProperties, c: DevicePropertiesCollector) -> bool {
    (c.serial_number matches Some(s) && p.serial_number@ == s@) && Some(
        p.run_time_since_last_service_hours,
    ) == c.run_time_since_last_service_hours && Some(p.last_service_month) == c.last_service_month
        && Some(p.last_service_year) == c.last_service_year
}

impl DevicePropertiesCollector {
    pub open spec fn all_known(&self) -> bool {
        self.serial_number is Some && self.run_time_since_last_service_hours is Some
            && self.last_service_month is Some && self.last_service_year is Some
    }

    pub fn new() -> (r: DevicePropertiesCollector)
        ensures
            r.serial_number is None,
            r.run_time_since_last_service_hours is None,
            r.last_service_month is None,
            r.last_service_year is None,
            !r.published,
    {
        DevicePropertiesCollector {
            serial_number: None,
            run_time_since_last_service_hours: None,
            last_service_month: None,
            last_service_year: None,
            published: false,
        }
    }

    /// Feeds one settings line in; returns the assembled properties on the
    /// transition to all four being known, and never again.
    pub fn process(&mut self, setting: SettingMessage) -> (r: Option<DeviceProperties>)
        ensures
            collector_step(*old(self), setting, *final(self)),
            if final(self).all_known() && !old(self).published {
                r matches Some(p) && final(self).published && properties_of(p, *final(self))
            } else {
                r is None && final(self).published == old(self).published
            },
    {
        match setting {
            SettingMessage::SerialNumber(s) => {
                self.serial_number = Some(s);
            },
            SettingMessage::RunTimeSinceService { decaminutes } => {
                self.run_time_since_last_service_hours = Some(
                    Ratio::new(decaminutes as u128 * 10, 60),
                );
            },
            SettingMessage::DateLastServiced { month, year } => {
                self.last_service_month = Some(month);
                self.last_service_year = Some(
                    if year < 80 {
                        2000 + year as u16
                    } else {
                        1900 + year as u16
                    },
                );
            },
            _ => {},
        }
        if self.published {
            return None;
        }
        match (
            &self.serial_number,
            &self.run_time_since_last_service_hours,
            &self.last_service_month,
            &self.last_service_year,
        ) {
            (Some(serial), Some(hours), Some(month), Some(year)) => {
                self.published = true;
                Some(
                    DeviceProperties {
                        serial_number: serial.clone(),
                        run_time_since_last_service_hours: *hours,
                        last_service_month: *month,
                        last_service_year: *year,
                    },
                )
            },
            _ => None,
        }
    }
}

/// Everything one coordinator step hands back: commands for the writer,
/// device notifications and per-test notifications for the embedder, and
/// whether the session should end.
pub struct CoordinatorEffects {
    pub commands: Vec<Command>,
    pub notifications: Vec<DeviceNotification>,
    pub test_notifications: Vec<TestNotification>,
    pub exit: bool,
}

/// The coordinator's state: at most one test at a time, the valve state as
/// far as it is known, and the settings aggregator.
pub struct DeviceCoordinator {
    pub test: Option<Test>,
    pub valve_state: ValveState,
    pub properties: DevicePropertiesCollector,
}

impl DeviceCoordinator {
    /// Any held test is mid-flight: well-formed and not yet complete.
    pub open spec fn wf(&self) -> bool {
        match self.test {
            Some(t) => t.wf() && !t.spec_complete(),
            None => true,
        }
    }

    /// A fresh session: no test, valve assumed on the specimen side, and
    /// the opening commands that put the device under external control and
    /// request its settings.
    pub fn new() -> (r: (DeviceCoordinator, Vec<Command>))
        ensures
            r.0.wf(),
            r.0.test is None,
            r.0.valve_state == ValveState::Specimen,
            !r.0.properties.published,
            r.1@ == seq![Command::EnterExternalControl, Command::RequestSettings],
    {
        let mut cmds: Vec<Command> = Vec::new();
        cmds.push(Command::EnterExternalControl);
        cmds.push(Command::RequestSettings);
        proof {
            assert(cmds@ =~= seq![Command::EnterExternalControl, Command::RequestSettings]);
        }
        (
            DeviceCoordinator {
                test: None,
                valve_state: ValveState::Specimen,
                properties: DevicePropertiesCollector::new(),
            },
            cmds,
        )
    }

    /// Dispatches one client action: start a test (replacing any in-flight
    /// one; an invalid configuration starts none), cancel the test and park
    /// the valve on the specimen side, or close the session.
    pub fn handle_action(&mut self, action: Action) -> (eff: CoordinatorEffects)
        requires
            old(self).wf(),
        ensures
            final(self).wf(),
            final(self).properties == old(self).properties,
            match action {
                Action::StartTest { config, device_synchroniser } => eff.commands@.len() == 0
                    && !eff.exit && eff.notifications@ == seq![DeviceNotification::TestStarted]
                    && if config_valid(config) {
                    (final(self).test matches Some(t) && t.wf() && !t.spec_complete()
                        && t.spec_config() == config && t.spec_device_synchroniser()
                        == device_synchroniser && t.spec_results().len() == 1
                        && t.spec_exercise_ffs().len() == 0) && eff.test_notifications@ == seq![
                        TestNotification::StateChange {
                            test_state: crate::test::TestState::StartedExercise { exercise: 0 },
                        },
                    ] && (match old(self).valve_state {
                        ValveState::Ambient | ValveState::AwaitingAmbient => final(self).valve_state == old(self).valve_state,
                        _ => final(self).valve_state == ValveState::AwaitingAmbient,
                    })
                } else {
                    final(self).test is None && eff.test_notifications@.len() == 0 && final(self).valve_state == old(self).valve_state
                },
                Action::CancelTest => eff.commands@ == seq![
                    Command::ClearDisplay,
                    Command::ValveSpecimen,
                ] && eff.notifications@ == seq![DeviceNotification::TestCancelled]
                    && eff.test_notifications@.len() == 0 && !eff.exit && final(self).test is None
                    && final(self).valve_state == ValveState::AwaitingSpecimen,
                Action::CloseConnection => eff.commands@ == seq![Command::ExitExternalControl]
                    && eff.notifications@.len() == 0 && eff.test_notifications@.len() == 0
                    && eff.exit && final(self).test == old(self).test && final(self).valve_state
                    == old(self).valve_state,
            },
    {
        match action {
            Action::StartTest { config, device_synchroniser } => {
                let mut notifications: Vec<DeviceNotification> = Vec::new();
                notifications.push(DeviceNotification::TestStarted);
                let mut test_notifications: Vec<TestNotification> = Vec::new();
                match config.validate() {
                    Ok(()) => {
                        let started = Test::create_and_start(
                            config,
                            device_synchroniser,
                            &mut self.valve_state,
                        );
                        self.test = Some(started.0);
                        test_notifications = started.1;
                    },
                    Err(_) => {
                        self.test = None;
                    },
                }
                CoordinatorEffects {
                    commands: Vec::new(),
                    notifications,
                    test_notifications,
                    exit: false,
                }
            },
            Action::CancelTest => {
                let mut cmds: Vec<Command> = Vec::new();
                cmds.push(Command::ClearDisplay);
                cmds.push(Command::ValveSpecimen);
                let mut notifications: Vec<DeviceNotification> = Vec::new();
                notifications.push(DeviceNotification::TestCancelled);
                self.valve_state = ValveState::AwaitingSpecimen;
                self.test = None;
                proof {
                    assert(cmds@ =~= seq![Command::ClearDisplay, Command::ValveSpecimen]);
                    assert(notifications@ =~= seq![DeviceNotification::TestCancelled]);
                }
                CoordinatorEffects {
                    commands: cmds,
                    notifications,
                    test_notifications: Vec::new(),
                    exit: false,
                }
            },
            Action::CloseConnection => {
                let mut cmds: Vec<Command> = Vec::new();
                cmds.push(Command::ExitExternalControl);
                proof {
                    assert(cmds@ =~= seq![Command::ExitExternalControl]);
                }
                CoordinatorEffects {
                    commands: cmds,
                    notifications: Vec::new(),
                    test_notifications: Vec::new(),
                    exit: true,
                }
            },
        }
    }

    /// Consumes one inbound message (or a liveness tick): always reports a
    /// sample to the embedder; feeds settings to the aggregator; forwards
    /// everything else to the in-flight test, collecting its fit factors
    /// when it completes and dropping it when it aborts; without a test,
    /// tracks valve echoes and mirrors samples onto the device's display.
    /// `directive` is the synchroniser's verdict for this message when the
    /// test is synchronised, `Proceed` otherwise.
    pub fn handle_message(&mut self, message: Option<Message>, directive: StepDirective) -> (eff:
        CoordinatorEffects)
        requires
            old(self).wf(),
        ensures
            final(self).wf(),
            !eff.exit,
            match message {
                None => final(self).test == old(self).test && final(self).valve_state == old(self).valve_state && final(self).properties == old(self).properties && eff.commands@
                    .len() == 0 && eff.notifications@.len() == 0 && eff.test_notifications@.len()
                    == 0,
                Some(m) => {
                    let head: Seq<DeviceNotification> = match m {
                        Message::Sample(v) => seq![
                            DeviceNotification::Sample { particle_conc: v },
                        ],
                        _ => Seq::empty(),
                    };
                    match m {
                        Message::Setting(sm) => final(self).test == old(self).test && final(self).valve_state == old(self).valve_state && eff.commands@.len() == 0
                            && eff.test_notifications@.len() == 0 && collector_step(
                            old(self).properties,
                            sm,
                            final(self).properties,
                        ) && if final(self).properties.all_known() && !old(
                            self,
                        ).properties.published {
                            eff.notifications@.len() == 1 && (eff.notifications@[0] matches
                            DeviceNotification::DeviceProperties(p) && properties_of(
                                p,
                                final(self).properties,
                            )) && final(self).properties.published
                        } else {
                            eff.notifications@.len() == 0 && final(self).properties.published
                                == old(self).properties.published
                        },
                        _ => match old(self).test {
                            None => final(self).test is None && final(self).properties == old(self).properties && eff.test_notifications@.len() == 0
                                && eff.notifications@ == head && final(self).valve_state == (
                            match m {
                                Message::Response(Command::ValveAmbient) => ValveState::Ambient,
                                Message::Response(Command::ValveSpecimen) => ValveState::Specimen,
                                _ => old(self).valve_state,
                            }) && eff.commands@ == (match m {
                                Message::Sample(v) => seq![Command::DisplayConcentration(v)],
                                _ => Seq::<Command>::empty(),
                            }),
                            Some(t) => final(self).properties == old(self).properties && exists|
                                t2: Test,
                                out: StepOutcome,
                            |
                                {
                                    &&& #[trigger] step_spec(
                                        t,
                                        old(self).valve_state,
                                        m,
                                        directive,
                                        t2,
                                        final(self).valve_state,
                                        eff.commands@,
                                        eff.test_notifications@,
                                        out,
                                    )
                                    &&& t2.wf()
                                    &&& match out {
                                        StepOutcome::Continue => final(self).test == Some(t2)
                                            && eff.notifications@ == head,
                                        StepOutcome::TestComplete => final(self).test is None
                                            && eff.notifications@.len() == head.len() + 1
                                            && eff.notifications@.subrange(0, head.len() as int)
                                            == head && (eff.notifications@.last() matches
                                        DeviceNotification::TestCompleted { fit_factors: f }
                                            && f@ == t2.spec_exercise_ffs()),
                                        StepOutcome::Aborted => final(self).test is None
                                            && eff.notifications@ == head,
                                    }
                                },
                        },
                    }
                },
            },
    {
        let mut eff = CoordinatorEffects {
            commands: Vec::new(),
            notifications: Vec::new(),
            test_notifications: Vec::new(),
            exit: false,
        };
        let m = match message {
            Some(m) => m,
            None => {
                return eff;
            },
        };
        if let Message::Sample(v) = &m {
            eff.notifications.push(DeviceNotification::Sample { particle_conc: *v });
            proof {
                assert(eff.notifications@ =~= seq![
                    DeviceNotification::Sample { particle_conc: *v },
                ]);
            }
        }
        match m {
            Message::Setting(s) => {
                match self.properties.process(s) {
                    Some(p) => {
                        eff.notifications.push(DeviceNotification::DeviceProperties(p));
                    },
                    None => {},
                }
                eff
            },
            m2 => {
                match self.test.take() {
                    Some(mut t) => {
                        let ghost t0 = t;
                        let step_eff = t.step(m2, &mut self.valve_state, directive);
                        eff.commands = step_eff.commands;
                        eff.test_notifications = step_eff.notifications;
                        let ghost t2 = t;
                        let ghost out = step_eff.outcome;
                        match step_eff.outcome {
                            StepOutcome::Continue => {
                                self.test = Some(t);
                            },
                            StepOutcome::TestComplete => {
                                eff.notifications.push(
                                    DeviceNotification::TestCompleted { fit_factors: t.into_fit_factors() },
                                );
                            },
                            StepOutcome::Aborted => {},
                        }
                        proof {
                            assert(step_spec(
                                t0,
                                old(self).valve_state,
                                m2,
                                directive,
                                t2,
                                self.valve_state,
                                eff.commands@,
                                eff.test_notifications@,
                                out,
                            ));
                        }
                        eff
                    },
                    None => {
                        match &m2 {
                            Message::Response(Command::ValveAmbient) => {
                                self.valve_state = ValveState::Ambient;
                            },
                            Message::Response(Command::ValveSpecimen) => {
                                self.valve_state = ValveState::Specimen;
                            },
                            _ => {},
                        }
                        if let Message::Sample(v) = m2 {
                            eff.commands.push(Command::DisplayConcentration(v));
                            proof {
                                assert(eff.commands@ =~= seq![Command::DisplayConcentration(v)]);
                            }
                        }
                        eff
                    },
                }
            },
        }
    }
}

} // verus!
