use iosmic::time::{Duration, Instant};
use iosmic::virtual_source::{
    module_properties, plan_source, validate_description, validate_name, wait_for_context,
    wait_for_result, ActiveSource, CleanupStep, LoadStep, LoadedModules, ModuleKind, ServerState,
    ServerWait, VariableStep, DEFAULT_SOURCE_NAME, SINK_MODULE, SOURCE_MODULE,
};

#[test]
fn accepts_pulse_audio_names_used_by_the_helper() {
    assert!(validate_name("source", "ios.mic_1-test").is_ok());
}

#[test]
fn rejects_unsafe_pulse_audio_names() {
    assert!(validate_name("source", "ios mic").is_err());
    assert!(validate_name("source", "").is_err());
    assert!(validate_name("source", "ios=mic").is_err());
}

#[test]
fn accepts_human_readable_descriptions() {
    assert!(validate_description("iOS Mic").is_ok());
    assert!(validate_description("'s iPhone microphone").is_ok());
    assert!(validate_description("\n").is_err());
}

#[test]
fn escapes_descriptions_for_module_and_proplist_parsers() {
    assert_eq!(
        module_properties("'s \"iOS Mic\""),
        r#"'device.description="\'s \\"iOS Mic\\""'"#
    );
}

#[test]
fn refusals_say_what_is_wrong() {
    assert_eq!(
        validate_name("sink", "a b").unwrap_err().message(),
        "sink name may only contain ASCII letters, numbers, '.', '_', and '-'"
    );
    assert_eq!(
        validate_description("").unwrap_err().message(),
        "source description must be non-empty and cannot contain control characters"
    );
    assert!(validate_description("a\u{85}b").is_err());
    assert!(validate_description("a\u{7f}").is_err());
    assert!(validate_description("iPhone von Jürgen 🎤").is_ok());
    assert!(validate_name("source", "mikrofön").is_err());
}

#[test]
fn a_plan_spells_the_modules_out() {
    let plan = plan_source("iosmic", None, None).unwrap();
    assert_eq!(plan.sink_name, "iosmic_sink");
    assert_eq!(plan.description, "iOS Microphone");
    assert_eq!(
        plan.sink_argument,
        "sink_name=iosmic_sink sink_properties='device.description=\"iOS Microphone Output\"'"
    );
    assert_eq!(
        plan.source_argument,
        "master=iosmic_sink.monitor source_name=iosmic source_properties='device.description=\"iOS Microphone\"'"
    );
    let plan = plan_source("phone", Some("back"), Some("Desk")).unwrap();
    assert_eq!(plan.source_name, "phone");
    assert_eq!(
        plan.source_argument,
        "master=back.monitor source_name=phone source_properties='device.description=\"Desk\"'"
    );
    let refusal = |source: &str, description: &str| {
        plan_source(source, Some("c d"), Some(description)).unwrap_err().message().to_owned()
    };
    assert!(refusal("a b", "").starts_with("source name"));
    assert!(refusal("a", "").starts_with("source description"));
    assert!(refusal("a", "e").starts_with("sink name"));
    assert_eq!(DEFAULT_SOURCE_NAME, "iosmic");
    assert_eq!((SINK_MODULE, SOURCE_MODULE), ("module-null-sink", "module-remap-source"));
}

#[test]
fn an_answer_counts_before_a_lost_connection_and_that_before_the_deadline() {
    let now = Instant::at(Duration::from_secs(1));
    let late = now.after(Duration::from_secs(10));
    assert_eq!(wait_for_context(ServerState::Ready, late, now), ServerWait::Done);
    assert_eq!(wait_for_context(ServerState::Failed, late, now), ServerWait::Failed);
    assert_eq!(wait_for_context(ServerState::Terminated, now, late), ServerWait::Failed);
    assert_eq!(wait_for_context(ServerState::Pending, now, now), ServerWait::TimedOut);
    assert_eq!(wait_for_context(ServerState::Pending, now, late), ServerWait::Iterate);
    assert_eq!(wait_for_result(true, ServerState::Failed, late, now), ServerWait::Done);
    assert_eq!(wait_for_result(false, ServerState::Ready, now, late), ServerWait::Iterate);
    assert_eq!(wait_for_result(false, ServerState::Failed, late, now), ServerWait::Failed);
    assert_eq!(wait_for_result(false, ServerState::Ready, late, now), ServerWait::TimedOut);
}

#[test]
fn modules_are_unloaded_in_order_and_none_is_forgotten() {
    let mut modules = LoadedModules::none();
    assert_eq!(modules.on_sink(Some(7)), LoadStep::LoadSource);
    assert_eq!(modules.on_source(Some(9)), LoadStep::Ready);
    let (mut source, _) = ActiveSource::select(modules, None, "iosmic_sink");
    let named = |steps: &[CleanupStep]| -> Vec<(ModuleKind, u32)> {
        let mut named = Vec::new();
        for step in steps {
            if let CleanupStep::Unload { kind, module } = step {
                named.push((*kind, *module));
            }
        }
        named
    };
    assert_eq!(named(&source.cleanup()), [(ModuleKind::Source, 9), (ModuleKind::Sink, 7)]);
    assert_eq!(named(&source.cleanup()), []);

    assert_eq!(modules.on_source(None), LoadStep::GiveUp { unload: Some(7) });
    modules = LoadedModules::none();
    assert_eq!(modules.on_sink(None), LoadStep::GiveUp { unload: None });
    assert_eq!(modules, LoadedModules::none());
}

#[test]
fn the_variable_is_put_back() {
    for before in [None, Some("speakers".to_owned()), Some(String::new())] {
        let (mut source, step) =
            ActiveSource::select(LoadedModules::none(), before.clone(), "iosmic_sink");
        let mut variable = value(step);
        assert_eq!(variable.as_deref(), Some("iosmic_sink"));
        for _ in 0..2 {
            let mut steps = source.cleanup();
            assert!(matches!(steps.pop(), Some(CleanupStep::Disconnect)));
            match steps.pop() {
                Some(CleanupStep::Variable(step)) => variable = value(step),
                other => panic!("{other:?}"),
            }
            assert!(steps.is_empty());
            assert_eq!(variable, before);
        }
        assert_eq!(value(source.restored()), before);
    }
}

fn value(step: VariableStep) -> Option<String> {
    match step {
        VariableStep::Assign(value) => Some(value),
        VariableStep::Remove => None,
    }
}
