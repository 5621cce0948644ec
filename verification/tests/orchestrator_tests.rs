use p8020::coordinator::Action;
use p8020::coordinator::DeviceCoordinator;
use p8020::coordinator::DeviceNotification;
use p8020::coordinator::DevicePropertiesCollector;
use p8020::multidev::StepDirective;
use p8020::num::Concentration;
use p8020::num::Ratio;
use p8020::protocol::Command;
use p8020::protocol::Message;
use p8020::protocol::SettingMessage;
use p8020::test::StepOutcome;
use p8020::test::Test;
use p8020::test::TestNotification;
use p8020::test::ValveState;
use p8020::test_config::StageCounts;
use p8020::test_config::TestConfig;
use p8020::test_config::TestStage;

fn conc(hundredths: u64) -> Concentration {
    Concentration::from_hundredths(hundredths).unwrap()
}

fn ambient(purge_count: u8, sample_count: u16) -> TestStage {
    TestStage::AmbientSample {
        counts: StageCounts { purge_count, sample_count },
    }
}

fn exercise(name: &str, purge_count: u8, sample_count: u16) -> TestStage {
    TestStage::Exercise {
        name: name.to_string(),
        counts: StageCounts { purge_count, sample_count },
    }
}

fn single_exercise_config() -> TestConfig {
    TestConfig {
        name: "minimal".to_string(),
        short_name: "minimal".to_string(),
        stages: vec![ambient(0, 1), exercise("ex", 0, 1), ambient(0, 1)],
    }
}

fn ratio_value(r: &Ratio) -> f64 {
    r.num as f64 / r.den as f64
}

fn run_single_exercise(specimen_hundredths: u64) -> (Vec<TestNotification>, Vec<Ratio>) {
    let mut valve = ValveState::Specimen;
    let (mut test, _notes) = Test::create_and_start(single_exercise_config(), None, &mut valve);
    assert!(matches!(valve, ValveState::AwaitingAmbient));
    let mut all_notes: Vec<TestNotification> = Vec::new();

    // the device echoes the switch to ambient
    let eff = test.step(
        Message::Response(Command::ValveAmbient),
        &mut valve,
        StepDirective::Proceed,
    );
    assert!(matches!(eff.outcome, StepOutcome::Continue));
    assert!(matches!(valve, ValveState::Ambient));

    // ambient sample: 100.0 particles/cm3
    let eff = test.step(Message::Sample(conc(10_000)), &mut valve, StepDirective::Proceed);
    assert!(matches!(eff.outcome, StepOutcome::Continue));
    assert!(matches!(valve, ValveState::AwaitingSpecimen));
    all_notes.extend(eff.notifications);

    let eff = test.step(
        Message::Response(Command::ValveSpecimen),
        &mut valve,
        StepDirective::Proceed,
    );
    assert!(matches!(eff.outcome, StepOutcome::Continue));

    // specimen sample
    let eff = test.step(
        Message::Sample(conc(specimen_hundredths)),
        &mut valve,
        StepDirective::Proceed,
    );
    assert!(matches!(eff.outcome, StepOutcome::Continue));
    assert!(matches!(valve, ValveState::AwaitingAmbient));
    all_notes.extend(eff.notifications);

    let eff = test.step(
        Message::Response(Command::ValveAmbient),
        &mut valve,
        StepDirective::Proceed,
    );
    assert!(matches!(eff.outcome, StepOutcome::Continue));

    // closing ambient sample finishes the test and resolves the exercise
    let eff = test.step(Message::Sample(conc(10_000)), &mut valve, StepDirective::Proceed);
    assert!(matches!(eff.outcome, StepOutcome::TestComplete));
    assert!(matches!(valve, ValveState::AwaitingSpecimen));
    all_notes.extend(eff.notifications);

    (all_notes, test.exercise_ffs)
}

#[test]
fn test_single_exercise_completion() {
    let (notes, ffs) = run_single_exercise(100);
    let mut results = 0;
    let mut live = 0;
    for note in &notes {
        if let TestNotification::ExerciseResult { exercise, fit_factor, error_rel_sq, .. } = note {
            assert_eq!(*exercise, 0);
            // ambient average 100.0 over specimen 1.0
            assert!((ratio_value(fit_factor) - 100.0).abs() < 1e-9);
            assert!(ratio_value(error_rel_sq) > 0.0);
            results += 1;
        }
        if let TestNotification::LiveFF { index, fit_factor, .. } = note {
            // 1.0 particles/cm3 is above the 0.6 floor: live = 100 / 1.0
            assert_eq!(*index, 1);
            assert!((ratio_value(fit_factor) - 100.0).abs() < 1e-9);
            live += 1;
        }
    }
    assert_eq!(results, 1);
    assert_eq!(live, 1);
    assert_eq!(ffs.len(), 1);
    assert!((ratio_value(&ffs[0]) - 100.0).abs() < 1e-9);
}

#[test]
fn test_minimum_measurable_floor() {
    // a clean-mask specimen reading of 0.0 is floored at 0.6/n particles,
    // so the fit factor is 100 / 0.6 rather than infinity
    let (notes, ffs) = run_single_exercise(0);
    let mut results = 0;
    for note in &notes {
        if let TestNotification::ExerciseResult { fit_factor, .. } = note {
            assert!((ratio_value(fit_factor) - 100.0 / 0.6).abs() < 1e-6);
            results += 1;
        }
        if let TestNotification::LiveFF { fit_factor, .. } = note {
            // a 0.0 reading is floored at the minimum measurable 0.6
            assert!((ratio_value(fit_factor) - 100.0 / 0.6).abs() < 1e-6);
        }
    }
    assert_eq!(results, 1);
    assert_eq!(ffs.len(), 1);
    assert!((ratio_value(&ffs[0]) - 166.6666).abs() < 1e-3);
}

#[test]
fn test_constant_samples_give_exact_ratio() {
    // with constant ambient 100.0 and specimen 2.5 the fit factor is
    // exactly 100 / 2.5 = 40, as an exact rational
    let (_notes, ffs) = run_single_exercise(250);
    assert_eq!(ffs.len(), 1);
    let ff = &ffs[0];
    assert_eq!(ff.num * 250, 10_000 * ff.den);
    assert_eq!(ff.num, 40 * ff.den);
}

fn two_exercise_config() -> TestConfig {
    TestConfig {
        name: "pair".to_string(),
        short_name: "pair".to_string(),
        stages: vec![
            ambient(0, 1),
            exercise("first", 0, 1),
            exercise("second", 0, 2),
            ambient(0, 1),
        ],
    }
}

#[test]
fn test_cancellation_mid_exercise() {
    let (mut coord, init_cmds) = DeviceCoordinator::new();
    assert_eq!(init_cmds, vec![Command::EnterExternalControl, Command::RequestSettings]);

    let eff = coord.handle_action(Action::StartTest {
        config: two_exercise_config(),
        device_synchroniser: None,
    });
    assert_eq!(eff.notifications, vec![DeviceNotification::TestStarted]);

    // walk into the second exercise
    coord.handle_message(
        Some(Message::Response(Command::ValveAmbient)),
        StepDirective::Proceed,
    );
    coord.handle_message(Some(Message::Sample(conc(10_000))), StepDirective::Proceed);
    coord.handle_message(
        Some(Message::Response(Command::ValveSpecimen)),
        StepDirective::Proceed,
    );
    let eff = coord.handle_message(Some(Message::Sample(conc(100))), StepDirective::Proceed);
    let started_second = eff.test_notifications.iter().any(|n| {
        matches!(
            n,
            TestNotification::StateChange {
                test_state: p8020::test::TestState::StartedExercise { exercise: 1 }
            }
        )
    });
    assert!(started_second);

    // cancel: ClearDisplay then ValveSpecimen, TestCancelled, test dropped
    let eff = coord.handle_action(Action::CancelTest);
    assert_eq!(eff.commands, vec![Command::ClearDisplay, Command::ValveSpecimen]);
    assert_eq!(eff.notifications, vec![DeviceNotification::TestCancelled]);
    assert!(matches!(coord.valve_state, ValveState::AwaitingSpecimen));
    assert!(coord.test.is_none());

    // later samples produce no test notifications, only the live reading
    let eff = coord.handle_message(Some(Message::Sample(conc(5_000))), StepDirective::Proceed);
    assert_eq!(eff.test_notifications.len(), 0);
    assert_eq!(
        eff.notifications,
        vec![DeviceNotification::Sample { particle_conc: conc(5_000) }]
    );
    // without a test the reading is mirrored onto the display
    assert_eq!(eff.commands, vec![Command::DisplayConcentration(conc(5_000))]);
}

#[test]
fn test_completion_through_coordinator() {
    let (mut coord, _init) = DeviceCoordinator::new();
    coord.handle_action(Action::StartTest {
        config: single_exercise_config(),
        device_synchroniser: None,
    });
    coord.handle_message(
        Some(Message::Response(Command::ValveAmbient)),
        StepDirective::Proceed,
    );
    coord.handle_message(Some(Message::Sample(conc(10_000))), StepDirective::Proceed);
    coord.handle_message(
        Some(Message::Response(Command::ValveSpecimen)),
        StepDirective::Proceed,
    );
    coord.handle_message(Some(Message::Sample(conc(100))), StepDirective::Proceed);
    coord.handle_message(
        Some(Message::Response(Command::ValveAmbient)),
        StepDirective::Proceed,
    );
    let eff = coord.handle_message(Some(Message::Sample(conc(10_000))), StepDirective::Proceed);
    assert!(coord.test.is_none());
    let mut completed = false;
    for n in &eff.notifications {
        if let DeviceNotification::TestCompleted { fit_factors } = n {
            assert_eq!(fit_factors.len(), 1);
            assert!((ratio_value(&fit_factors[0]) - 100.0).abs() < 1e-9);
            completed = true;
        }
    }
    assert!(completed);
}

#[test]
fn test_device_properties_published_once() {
    let mut collector = DevicePropertiesCollector::new();
    assert!(collector
        .process(SettingMessage::SerialNumber("80201234".to_string()))
        .is_none());
    assert!(collector
        .process(SettingMessage::RunTimeSinceService { decaminutes: 123 })
        .is_none());
    // unrelated settings do not publish
    assert!(collector
        .process(SettingMessage::AmbientPurgeTime { seconds: 4 })
        .is_none());
    let published = collector
        .process(SettingMessage::DateLastServiced { month: 12, year: 24 })
        .expect("all four properties known");
    assert_eq!(published.serial_number, "80201234");
    // 123 decaminutes = 1230 minutes = 20.5 hours
    assert!((ratio_value(&published.run_time_since_last_service_hours) - 20.5).abs() < 1e-9);
    assert_eq!(published.last_service_month, 12);
    assert_eq!(published.last_service_year, 2024);
    // published exactly once
    assert!(collector
        .process(SettingMessage::SerialNumber("80201234".to_string()))
        .is_none());

    // a pre-2000 service date expands into the 1900s
    let mut older = DevicePropertiesCollector::new();
    older.process(SettingMessage::SerialNumber("x".to_string()));
    older.process(SettingMessage::RunTimeSinceService { decaminutes: 6 });
    let p = older
        .process(SettingMessage::DateLastServiced { month: 1, year: 99 })
        .unwrap();
    assert_eq!(p.last_service_year, 1999);
    assert!((ratio_value(&p.run_time_since_last_service_hours) - 1.0).abs() < 1e-9);
}

#[test]
fn test_valve_stage_mismatch_aborts() {
    let mut valve = ValveState::Specimen;
    let (mut test, _notes) = Test::create_and_start(single_exercise_config(), None, &mut valve);
    // walk into the exercise stage
    test.step(
        Message::Response(Command::ValveAmbient),
        &mut valve,
        StepDirective::Proceed,
    );
    test.step(Message::Sample(conc(10_000)), &mut valve, StepDirective::Proceed);
    test.step(
        Message::Response(Command::ValveSpecimen),
        &mut valve,
        StepDirective::Proceed,
    );
    // a stray ambient echo flips the valve against the exercise stage; the
    // next sample is a protocol violation, fatal for the test
    test.step(
        Message::Response(Command::ValveAmbient),
        &mut valve,
        StepDirective::Proceed,
    );
    let eff = test.step(Message::Sample(conc(100)), &mut valve, StepDirective::Proceed);
    assert!(matches!(eff.outcome, StepOutcome::Aborted));
    assert_eq!(eff.notifications.len(), 0);
}

#[test]
fn test_skip_directive_discards_sample() {
    let mut valve = ValveState::Specimen;
    let (mut test, _notes) = Test::create_and_start(single_exercise_config(), None, &mut valve);
    test.step(
        Message::Response(Command::ValveAmbient),
        &mut valve,
        StepDirective::Proceed,
    );
    // a skipped sample leaves the test untouched
    let eff = test.step(Message::Sample(conc(10_000)), &mut valve, StepDirective::Skip);
    assert!(matches!(eff.outcome, StepOutcome::Continue));
    assert_eq!(eff.notifications.len(), 0);
    assert_eq!(eff.commands.len(), 0);
    // the next accepted sample still completes the ambient stage
    let eff = test.step(Message::Sample(conc(10_000)), &mut valve, StepDirective::Proceed);
    assert!(matches!(valve, ValveState::AwaitingSpecimen));
    assert!(!eff.notifications.is_empty());
}
