use mirthbr::message::Message;
use mirthbr::models::{Mapping, ProcessorConfig, ProcessorType};
use mirthbr::pipeline::{
    dedup_plan, outcome_plan, ChainOutcome, ChainStep, PipelineAction, PipelineProcessor,
    ReplyOutcome,
};
use mirthbr::script::LuaOutcome;
use mirthbr::status::MessageStatus;

fn proc_config(kind: ProcessorType) -> ProcessorConfig {
    ProcessorConfig { id: "p".to_string(), name: "p".to_string(), kind }
}

fn pipeline(kinds: Vec<ProcessorType>) -> PipelineProcessor {
    PipelineProcessor::new(
        1,
        "chan".to_string(),
        kinds.into_iter().map(proc_config).collect(),
        vec![],
        None,
    )
}

#[test]
fn test_empty_chain_completes_unchanged() {
    let p = pipeline(vec![]);
    let msg = Message::new(1, "body".to_string(), "test".to_string());
    match p.advance(msg, 0) {
        ChainStep::Done(ChainOutcome::Completed(m)) => assert_eq!(m.content, "body"),
        _ => panic!("an empty chain completes"),
    }
}

#[test]
fn test_chain_stops_at_script() {
    let p = pipeline(vec![ProcessorType::Lua { code: "return msg.content".to_string() }]);
    let msg = Message::new(1, "body".to_string(), "test".to_string());
    match p.advance(msg, 0) {
        ChainStep::RunScript { code, msg, idx } => {
            assert_eq!(code, "return msg.content");
            assert_eq!(msg.content, "body");
            assert_eq!(idx, 0);
        },
        _ => panic!("a script processor hands control out"),
    }
}

#[test]
fn test_resume_after_script_continues() {
    let p = pipeline(vec![ProcessorType::Lua { code: "c".to_string() }]);
    let msg = Message::new(1, "body".to_string(), "test".to_string());
    match p.resume_after_script(msg, 0, Ok("BODY".to_string())) {
        ChainStep::Done(ChainOutcome::Completed(m)) => assert_eq!(m.content, "BODY"),
        _ => panic!("a returned content completes the one-script chain"),
    }
    let msg2 = Message::new(1, "body".to_string(), "test".to_string());
    let id = msg2.id;
    match p.resume_after_script(msg2, 0, Err("boom".to_string())) {
        ChainStep::Done(ChainOutcome::Failed { msg, error }) => {
            assert_eq!(error, "boom");
            // the failed message is kept, so the error destination can get it
            assert_eq!(msg.id, id);
            assert_eq!(msg.content, "body");
        },
        _ => panic!("a script error fails the chain"),
    }
}

#[test]
fn test_resume_after_filter_verdicts() {
    let p = pipeline(vec![ProcessorType::Filter { condition: "c".to_string() }]);

    let m = Message::new(1, "KEEP".to_string(), "test".to_string());
    match p.resume_after_filter(m, 0, Ok(LuaOutcome::Bool(true))) {
        ChainStep::Done(ChainOutcome::Completed(_)) => {},
        _ => panic!("a passing filter continues"),
    }

    let m = Message::new(1, "DROP".to_string(), "test".to_string());
    match p.resume_after_filter(m, 0, Ok(LuaOutcome::Bool(false))) {
        ChainStep::Done(ChainOutcome::Filtered) => {},
        _ => panic!("a dropping filter filters"),
    }

    let m = Message::new(1, "X".to_string(), "test".to_string());
    match p.resume_after_filter(m, 0, Ok(LuaOutcome::Nil)) {
        ChainStep::Done(ChainOutcome::Completed(_)) => {},
        _ => panic!("a non-boolean result, nil included, passes"),
    }

    let m = Message::new(1, "X".to_string(), "test".to_string());
    match p.resume_after_filter(m, 0, Ok(LuaOutcome::Other)) {
        ChainStep::Done(ChainOutcome::Completed(_)) => {},
        _ => panic!("a non-boolean passes"),
    }
}

#[test]
fn test_chain_runs_mapper_inline() {
    let p = pipeline(vec![
        ProcessorType::Mapper {
            mappings: vec![Mapping { source: "a".to_string(), target: "b".to_string() }],
        },
    ]);
    let msg = Message::new(1, r#"{"a": 1}"#.to_string(), "test".to_string());
    match p.advance(msg, 0) {
        ChainStep::Done(ChainOutcome::Completed(m)) => {
            let v: serde_json::Value = serde_json::from_str(&m.content).unwrap();
            assert_eq!(v["b"], 1);
        },
        _ => panic!("the mapper runs inside the chain"),
    }

    let bad = Message::new(1, "not json".to_string(), "test".to_string());
    match p.advance(bad, 0) {
        ChainStep::Done(ChainOutcome::Failed { msg, .. }) => {
            // the message as it stood is kept for the error destination
            assert_eq!(msg.content, "not json");
        },
        _ => panic!("non-JSON input fails the mapper"),
    }
}

#[test]
fn test_chain_runs_flattener_inline() {
    let p = pipeline(vec![
        ProcessorType::Hl7 { input_format: "er7".to_string(), output_format: "json".to_string() },
    ]);
    let msg = Message::new(1, "MSH|^~\\&|A\rPID|1|X".to_string(), "test".to_string());
    match p.advance(msg, 0) {
        ChainStep::Done(ChainOutcome::Completed(m)) => {
            let v: serde_json::Value = serde_json::from_str(&m.content).unwrap();
            assert_eq!(v["PID"][0], "PID");
            assert_eq!(v["PID"][2], "X");
            assert_eq!(v["MSH"][2], "A");
        },
        _ => panic!("the flattener runs inside the chain"),
    }
}

#[test]
fn test_message_id_survives_the_chain() {
    let p = pipeline(vec![
        ProcessorType::Hl7 { input_format: "er7".to_string(), output_format: "json".to_string() },
    ]);
    let msg = Message::new(1, "MSH|1".to_string(), "test".to_string());
    let id = msg.id;
    match p.advance(msg, 0) {
        ChainStep::Done(ChainOutcome::Completed(m)) => assert_eq!(m.id, id),
        _ => panic!(),
    }
}

#[test]
fn test_dedup_plan_shapes() {
    let dup = dedup_plan(true);
    assert_eq!(dup.len(), 2);
    match &dup[0] {
        PipelineAction::SetStatus(MessageStatus::FILTERED, Some(reason)) => {
            assert_eq!(reason, "Duplicate message");
        },
        _ => panic!("a duplicate is filtered with its reason"),
    }
    assert!(matches!(dup[1], PipelineAction::Reply(ReplyOutcome::Duplicate)));

    let fresh = dedup_plan(false);
    assert_eq!(fresh.len(), 3);
    assert!(matches!(fresh[0], PipelineAction::MarkProcessed));
    assert!(matches!(fresh[1], PipelineAction::SetStatus(MessageStatus::PROCESSING, None)));
    assert!(matches!(fresh[2], PipelineAction::EmitMetric(MessageStatus::PROCESSING)));
}

#[test]
fn test_outcome_plans_end_terminal() {
    let msg = Message::new(1, "x".to_string(), "t".to_string());
    let done = outcome_plan(ChainOutcome::Completed(msg));
    assert!(matches!(done[0], PipelineAction::RunDestinations));
    assert!(matches!(done[1], PipelineAction::SetStatus(MessageStatus::SENT, None)));
    assert!(matches!(done[3], PipelineAction::Reply(ReplyOutcome::Processed)));

    let filtered = outcome_plan(ChainOutcome::Filtered);
    assert!(matches!(filtered[0], PipelineAction::SetStatus(MessageStatus::FILTERED, None)));

    let failed_msg = Message::new(1, "x".to_string(), "t".to_string());
    let failed = outcome_plan(ChainOutcome::Failed { msg: failed_msg, error: "why".to_string() });
    assert!(matches!(failed[0], PipelineAction::EmitMetric(MessageStatus::ERROR)));
    match &failed[1] {
        PipelineAction::SetStatus(MessageStatus::ERROR, Some(e)) => assert_eq!(e, "why"),
        _ => panic!("a failure writes the error"),
    }
    match &failed[2] {
        PipelineAction::Reply(ReplyOutcome::Rejected(e)) => assert_eq!(e, "why"),
        _ => panic!("the caller hears the error verbatim"),
    }
    assert!(matches!(failed[3], PipelineAction::RunErrorDestination));
}
