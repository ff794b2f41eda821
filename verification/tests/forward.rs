//! Forwarding to upstreams and choosing among their responses.

use resolver_plugins::error::DnsError;
use resolver_plugins::forward::config::{
    make_default_upstream_config, parse_quick_setup_param, parse_short_circuit_token,
    resolve_active_concurrent, strip_short_circuit_suffix, validate_forward_config, ForwardConfig,
};
use resolver_plugins::forward::fanout::{pick_upstreams, upstreams_from};
use resolver_plugins::forward::outcome::{ConcurrentForwarder, ExecStep, SingleDnsForwarder};
use resolver_plugins::forward::selection::{
    response_rank, select_response, Attempt, ResponseSelectionMode, SelectionEvent,
    SelectionOutcome, SelectionState, SelectionStep,
};
use resolver_plugins::forward::upstream::{
    contextualize_upstream_error, is_timeout_error, ConnectionInfo,
};
use resolver_plugins::proto::message::{
    DNSClass, Message, Question, RData, Rcode, Record, RecordType,
};
use resolver_plugins::proto::name::Name;
use resolver_plugins::proto::response::{NegativeResponseKind, ResponseDisposition};

fn question() -> Question {
    Question::new(
        Name::from_ascii("example.com.").unwrap(),
        RecordType::A,
        DNSClass::IN,
    )
}

fn reply(id: u16, rcode: Rcode) -> Message {
    let mut message = Message::new();
    message.id = id;
    message.rcode = rcode;
    message.questions.push(question());
    message
}

fn positive(id: u16) -> Message {
    let mut message = reply(id, Rcode::NoError);
    message.answers.push(Record::from_rdata(
        Name::from_ascii("example.com.").unwrap(),
        60,
        RData::A(1),
    ));
    message
}

fn alias(id: u16) -> Message {
    let mut message = reply(id, Rcode::NoError);
    message.answers.push(Record::from_rdata(
        Name::from_ascii("example.com.").unwrap(),
        60,
        RData::CNAME(Name::from_ascii("other.example.com.").unwrap()),
    ));
    message
}

fn ended(message: Message) -> SelectionEvent {
    SelectionEvent::Ended(Attempt::Response(message))
}

fn failed(text: &str) -> SelectionEvent {
    SelectionEvent::Ended(Attempt::Failed(DnsError::plugin(text)))
}

/// Feeds events to a selection until it is done.
fn run(
    mode: ResponseSelectionMode,
    active: usize,
    events: Vec<SelectionEvent>,
) -> Option<(bool, SelectionOutcome)> {
    let asked = question();
    let mut state = SelectionState::new(Some(&asked));
    for event in events {
        match select_response(state, event, active, mode) {
            SelectionStep::Wait(next) | SelectionStep::WaitWithGrace(next) => state = next,
            SelectionStep::Done { abort, outcome } => return Some((abort, outcome)),
        }
    }
    None
}

fn chosen_id(outcome: Option<(bool, SelectionOutcome)>) -> Option<(bool, u16)> {
    outcome.map(|(abort, (response, _, _))| {
        (abort, response.expect("a response should win").message.id)
    })
}

#[test]
fn the_first_response_wins_when_speed_counts() {
    let mode = ResponseSelectionMode::Fastest;
    assert_eq!(
        chosen_id(run(
            mode,
            3,
            vec![
                failed("broken"),
                ended(reply(2, Rcode::NXDomain)),
                ended(positive(3))
            ]
        )),
        Some((true, 2))
    );
}

#[test]
fn a_positive_response_beats_earlier_ones() {
    let mode = ResponseSelectionMode::PreferPositive;
    assert_eq!(
        chosen_id(run(
            mode,
            3,
            vec![ended(reply(1, Rcode::NXDomain)), ended(positive(2))]
        )),
        Some((true, 2))
    );
    // Without one, the best of all wins when all have ended.
    assert_eq!(
        chosen_id(run(
            mode,
            3,
            vec![
                ended(reply(1, Rcode::ServFail)),
                ended(reply(2, Rcode::NXDomain)),
                ended(alias(3))
            ]
        )),
        Some((false, 3))
    );
}

#[test]
fn a_negative_response_waits_for_the_grace_period() {
    let mode = ResponseSelectionMode::Balanced;
    let asked = question();
    let state = SelectionState::new(Some(&asked));
    let state = match select_response(state, ended(reply(1, Rcode::NXDomain)), 3, mode) {
        SelectionStep::WaitWithGrace(state) => state,
        other => panic!("a negative response should start the grace period, not {other:?}"),
    };
    assert_eq!(state.negative_votes(), 1);
    match select_response(state, SelectionEvent::GraceOver, 3, mode) {
        SelectionStep::Done { abort, outcome } => {
            assert!(abort);
            assert_eq!(outcome.0.expect("the negative response").message.id, 1);
        }
        other => panic!("the grace period is over, not {other:?}"),
    }

    assert_eq!(
        chosen_id(run(
            mode,
            3,
            vec![ended(reply(1, Rcode::NXDomain)), ended(positive(2))]
        )),
        Some((true, 2))
    );
    assert_eq!(ResponseSelectionMode::default(), mode);
}

#[test]
fn negative_responses_must_agree_for_consensus() {
    let mode = ResponseSelectionMode::Consensus;
    assert_eq!(
        chosen_id(run(
            mode,
            3,
            vec![
                ended(reply(1, Rcode::NXDomain)),
                ended(reply(2, Rcode::NXDomain))
            ]
        )),
        Some((true, 2))
    );
    assert_eq!(
        run(
            mode,
            3,
            vec![
                ended(reply(1, Rcode::NXDomain)),
                ended(reply(2, Rcode::NoError))
            ]
        ),
        None
    );
}

#[test]
fn a_response_is_taken_once() {
    let asked = question();
    let taken = |state: &mut SelectionState<'_>| {
        state.take_selected_response().map(|r| (r.message.id, r.disposition.is_some()))
    };

    // The failure ranks below the negative response, which is taken.
    let mut state = SelectionState::new(Some(&asked));
    state.record_error(DnsError::plugin("query Timeout"));
    state.record_response(reply(1, Rcode::ServFail));
    state.record_response(reply(2, Rcode::NXDomain));
    assert_eq!(taken(&mut state), Some((2, true)));
    assert_eq!(taken(&mut state), Some((1, true)));
    assert_eq!(taken(&mut state), None);
    assert_eq!(state.negative_votes(), 1);
    let (response, error, timed_out) = state.finish();
    assert_eq!(response, None);
    assert_eq!(error.as_deref(), Some("query Timeout"));
    assert!(timed_out);

    // A better one is taken, and the negative one stays.
    let mut state = SelectionState::new(Some(&asked));
    state.record_response(reply(1, Rcode::NXDomain));
    state.record_response(positive(2));
    assert_eq!(taken(&mut state), Some((2, true)));
    assert_eq!(taken(&mut state), None);
    assert_eq!(
        state.take_negative_response().map(|r| r.message.id),
        Some(1)
    );
}

#[test]
fn errors_win_only_when_nothing_else_came() {
    let outcome = run(
        ResponseSelectionMode::PreferPositive,
        2,
        vec![
            failed("broken"),
            failed("query Timeout"),
            SelectionEvent::Exhausted,
        ],
    );
    let (abort, (response, error, timed_out)) = outcome.expect("all have ended");
    assert!(!abort);
    assert_eq!(response, None);
    assert_eq!(error.as_deref(), Some("query Timeout"));
    assert!(timed_out);

    let outcome = run(
        ResponseSelectionMode::PreferPositive,
        2,
        vec![
            ended(reply(1, Rcode::ServFail)),
            failed("broken"),
            SelectionEvent::Exhausted,
        ],
    );
    assert_eq!(chosen_id(outcome), Some((false, 1)));
}

#[test]
fn responses_are_ranked() {
    assert_eq!(response_rank(ResponseDisposition::CompletePositive), 4);
    assert_eq!(response_rank(ResponseDisposition::IncompleteAlias), 3);
    assert_eq!(
        response_rank(ResponseDisposition::DefinitiveNegative(
            NegativeResponseKind::NoData
        )),
        2
    );
    assert_eq!(response_rank(ResponseDisposition::Other), 1);
}

#[test]
fn no_upstream_is_asked_twice() {
    assert_eq!(upstreams_from(2, 3, 4), vec![2, 3, 0]);
    assert_eq!(pick_upstreams(1, 0), None);
    let mut firsts = [false; 4];
    for _ in 0..200 {
        let picked = pick_upstreams(3, 4).expect("upstreams");
        assert_eq!(picked.len(), 3);
        for i in 0..3 {
            assert!(picked[i] < 4);
            assert_eq!(picked[i], (picked[0] + i) % 4);
        }
        firsts[picked[0]] = true;
    }
    // The start is random: a fixed one would leave the others out.
    assert!(firsts.iter().filter(|seen| **seen).count() > 1);
}

#[test]
fn concurrency_is_bounded() {
    assert_eq!(resolve_active_concurrent(None, 5), 1);
    assert_eq!(resolve_active_concurrent(Some(0), 5), 1);
    assert_eq!(resolve_active_concurrent(Some(2), 5), 2);
    assert_eq!(resolve_active_concurrent(Some(9), 2), 2);
    assert_eq!(resolve_active_concurrent(Some(99), 100), 32);
}

#[test]
fn quick_setups_are_read() {
    assert_eq!(
        parse_quick_setup_param(Some(" 1.1.1.1  8.8.8.8 short_circuit=true ".to_string())),
        Ok((vec!["1.1.1.1".to_string(), "8.8.8.8".to_string()], true))
    );
    assert_eq!(
        parse_quick_setup_param(Some("1.1.1.1".to_string())),
        Ok((vec!["1.1.1.1".to_string()], false))
    );
    let missing = "forward quick setup requires non-empty upstream address parameter";
    for param in [None, Some(String::new()), Some("short_circuit".to_string())] {
        assert_eq!(
            parse_quick_setup_param(param),
            Err(DnsError::plugin(missing))
        );
    }
    assert_eq!(
        parse_quick_setup_param(Some("1.1.1.1 short_circuit=no".to_string())),
        Err(DnsError::plugin(
            "invalid short_circuit value 'no', expected true or false"
        ))
    );
    assert_eq!(parse_short_circuit_token("other"), Ok(None));
    assert_eq!(
        parse_short_circuit_token("short_circuit=false"),
        Ok(Some(false))
    );
    assert_eq!(
        strip_short_circuit_suffix("a  b short_circuit"),
        Ok(("a b".to_string(), true))
    );
}

#[test]
fn configurations_are_checked() {
    let mut cfg = ForwardConfig {
        concurrent: None,
        response_selection: ResponseSelectionMode::Balanced,
        upstreams: Vec::new(),
        short_circuit: false,
    };
    assert_eq!(
        validate_forward_config(&cfg, &Vec::new()),
        Err(DnsError::plugin(
            "forward plugin requires at least one upstream"
        ))
    );
    for addr in ["1.1.1.1", "bad"] {
        cfg.upstreams
            .push(make_default_upstream_config(addr.to_string()));
    }
    assert_eq!(
        validate_forward_config(&cfg, &vec![Ok(()), Err(DnsError::plugin("no host"))]),
        Err(DnsError::plugin(
            "forward plugin upstream[1] addr 'bad' is invalid: no host"
        ))
    );
    assert_eq!(
        validate_forward_config(&cfg, &vec![Ok(()), Ok(())]),
        Ok(())
    );
}

#[test]
fn errors_tell_their_upstream() {
    let tagged = ConnectionInfo {
        tag: Some("one".to_string()),
        raw_addr: "1.1.1.1".to_string(),
    };
    let plain = ConnectionInfo {
        tag: None,
        raw_addr: "1.1.1.1".to_string(),
    };
    assert_eq!(
        contextualize_upstream_error(&tagged, DnsError::runtime("gone")),
        DnsError::plugin("upstream 'one' (1.1.1.1) query failed: gone")
    );
    assert_eq!(
        contextualize_upstream_error(&plain, DnsError::runtime("gone")),
        DnsError::plugin("upstream '1.1.1.1' query failed: gone")
    );
    assert!(is_timeout_error(&DnsError::runtime("Read TimeOut")));
    assert!(!is_timeout_error(&DnsError::runtime("refused")));
}

#[test]
fn requests_get_the_outcome() {
    let several = ConcurrentForwarder {
        tag: "f".to_string(),
        active_concurrent: 2,
        short_circuit: true,
    };
    assert_eq!(several.completion_step(), ExecStep::Stop);
    assert_eq!(
        several.conclude((None, None, false)),
        Err(DnsError::plugin(
            "forward plugin 'f' failed across all concurrent upstreams: no upstream response"
        ))
    );
    let (_, outcome) = run(
        ResponseSelectionMode::PreferPositive,
        1,
        vec![ended(alias(5))],
    )
    .expect("all have ended");
    let (message, step, incomplete) = several.conclude(outcome).expect("a response");
    assert_eq!((message.id, step, incomplete), (5, ExecStep::Stop, true));

    let one = SingleDnsForwarder {
        tag: "f".to_string(),
        upstream: ConnectionInfo {
            tag: None,
            raw_addr: "1.1.1.1".to_string(),
        },
        short_circuit: false,
    };
    let (message, step) = one.conclude(Ok(positive(6))).expect("a response");
    assert_eq!((message.id, step), (6, ExecStep::Next));
    assert!(one.conclude(Err(DnsError::runtime("gone"))).is_err());
}
