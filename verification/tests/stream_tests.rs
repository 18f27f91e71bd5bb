use llmis::stream::StreamParser;
use llmis::model::TokenEvent;

fn events_of(evs: &[TokenEvent]) -> Vec<(String, bool)> {
    evs.iter().map(|e| (e.token.clone(), e.finished)).collect()
}

#[test]
fn content_then_done_whole() {
    let mut p = StreamParser::new();
    let first = p.feed("data: {\"choices\":[{\"delta\":{\"content\":\"Hi\"}}]}\n\n");
    assert_eq!(events_of(&first), vec![("Hi".to_string(), false)]);
    let second = p.feed("data: [DONE]\n\n");
    assert_eq!(events_of(&second), vec![(String::new(), true)]);
    assert!(p.is_finished());
}

#[test]
fn content_then_done_any_split() {
    let whole = "data: {\"choices\":[{\"delta\":{\"content\":\"Hi\"}}]}\n\ndata: [DONE]\n\n";
    let expected = vec![("Hi".to_string(), false), (String::new(), true)];
    for cut in 0..=whole.len() {
        let (a, b) = whole.split_at(cut);
        let mut p = StreamParser::new();
        let mut got = events_of(&p.feed(a));
        got.extend(events_of(&p.feed(b)));
        assert_eq!(got, expected, "split at byte {}", cut);
        assert!(p.is_finished());
    }
}

#[test]
fn finish_reason_stop_carries_trailing_text() {
    let mut p = StreamParser::new();
    let evs = p.feed(
        "data: {\"choices\":[{\"delta\":{\"content\":\"Bye\"},\"finish_reason\":\"stop\"}]}\n\n",
    );
    assert_eq!(events_of(&evs), vec![("Bye".to_string(), true)]);
    assert!(p.is_finished());
    let more = p.feed("data: {\"content\":\"late\"}\n\n");
    assert!(more.is_empty());
    let closing = p.finish();
    assert!(closing.is_empty());
}

#[test]
fn unparseable_record_passes_through_raw() {
    let mut p = StreamParser::new();
    let evs = p.feed("data: not json at all\n\n");
    assert_eq!(events_of(&evs), vec![("not json at all".to_string(), false)]);
    assert!(!p.is_finished());
}

#[test]
fn dropped_transport_synthesizes_one_finished_event() {
    let mut p = StreamParser::new();
    let evs = p.feed("data: {\"content\":\"Hi\"}\n\n");
    assert_eq!(events_of(&evs), vec![("Hi".to_string(), false)]);
    let closing = p.finish();
    assert_eq!(events_of(&closing), vec![(String::new(), true)]);
    let again = p.finish();
    assert!(again.is_empty());
}

#[test]
fn token_text_shape_wins_first() {
    let mut p = StreamParser::new();
    let evs = p.feed("data: {\"token\":{\"text\":\"A\"},\"content\":\"B\",\"text\":\"C\"}\n\n");
    assert_eq!(events_of(&evs), vec![("A".to_string(), false)]);
}

#[test]
fn top_level_text_shape() {
    let mut p = StreamParser::new();
    let evs = p.feed("{\"text\":\"plain\"}\n\n");
    assert_eq!(events_of(&evs), vec![("plain".to_string(), false)]);
}

#[test]
fn choices_text_shape() {
    let mut p = StreamParser::new();
    let evs = p.feed("data: {\"choices\":[{\"text\":\"ct\"}]}\n\n");
    assert_eq!(events_of(&evs), vec![("ct".to_string(), false)]);
}

#[test]
fn done_flag_variants_terminate() {
    for flag in ["done", "stop", "completed"] {
        let mut p = StreamParser::new();
        let evs = p.feed(&format!("data: {{\"content\":\"x\",\"{}\":true}}\n\n", flag));
        assert_eq!(events_of(&evs), vec![("x".to_string(), true)], "flag {}", flag);
        assert!(p.is_finished());
    }
}

#[test]
fn false_flags_do_not_terminate() {
    let mut p = StreamParser::new();
    let evs = p.feed("data: {\"content\":\"x\",\"done\":false,\"stop\":false}\n\n");
    assert_eq!(events_of(&evs), vec![("x".to_string(), false)]);
    assert!(!p.is_finished());
}

#[test]
fn empty_nonterminal_records_are_suppressed() {
    let mut p = StreamParser::new();
    let evs = p.feed("data: {}\n\n{\"choices\":[{\"delta\":{}}]}\n\n");
    assert!(evs.is_empty());
    assert!(!p.is_finished());
}

#[test]
fn blank_records_are_skipped() {
    let mut p = StreamParser::new();
    let evs = p.feed("\n\n  \n\ndata: {\"content\":\"a\"}\n\n");
    assert_eq!(events_of(&evs), vec![("a".to_string(), false)]);
}

#[test]
fn record_split_across_many_chunks() {
    let mut p = StreamParser::new();
    let mut got = Vec::new();
    for piece in ["da", "ta: {\"cont", "ent\":\"frag\"}", "\n", "\n"] {
        got.extend(events_of(&p.feed(piece)));
    }
    assert_eq!(got, vec![("frag".to_string(), false)]);
}

#[test]
fn multiple_records_in_one_chunk() {
    let mut p = StreamParser::new();
    let evs = p.feed("data: {\"content\":\"a\"}\n\ndata: {\"content\":\"b\"}\n\n");
    assert_eq!(
        events_of(&evs),
        vec![("a".to_string(), false), ("b".to_string(), false)]
    );
}

#[test]
fn incomplete_record_stays_buffered() {
    let mut p = StreamParser::new();
    let evs = p.feed("data: {\"content\":\"a\"}");
    assert!(evs.is_empty());
    let evs = p.feed("\n\n");
    assert_eq!(events_of(&evs), vec![("a".to_string(), false)]);
}

#[test]
fn done_sentinel_without_prefix() {
    let mut p = StreamParser::new();
    let evs = p.feed("[DONE]\n\n");
    assert_eq!(events_of(&evs), vec![(String::new(), true)]);
    assert!(p.is_finished());
}

#[test]
fn data_after_terminal_is_ignored() {
    let mut p = StreamParser::new();
    let evs = p.feed("data: [DONE]\n\ndata: {\"content\":\"late\"}\n\n");
    assert_eq!(events_of(&evs), vec![(String::new(), true)]);
}
