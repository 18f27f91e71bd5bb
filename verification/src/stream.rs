//! The streaming protocol bridge: an incremental parser that turns a
//! backend's `\n\n`-delimited, optionally `data:`-prefixed record stream into
//! token events. The parser is a pure state machine over characters, so its
//! behaviour is independent of how the transport fragments the stream; the
//! surrounding process feeds it whatever the wire delivers.

use vstd::prelude::*;
use vstd::string::StrSliceExecFns;
use crate::model::TokenEvent;
use crate::text::chars_of_str;
use crate::text::spec_trim;
use crate::text::string_from_chars;
use crate::text::trim_str;
use crate::text::vec_range;
use crate::text::view_opt_string;

verus! {

/// The text-bearing fields the gateway reads from one decoded record, over
/// all known backend response shapes. A field is `None` when its path is
/// absent or not a string.
pub struct TextFields {
    pub token_text: Option<String>,
    pub content: Option<String>,
    pub text_value: Option<String>,
    pub delta_content: Option<String>,
    pub choice_text: Option<String>,
}

/// The mathematical image of `TextFields`.
pub struct TextFieldsV {
    pub token_text: Option<Seq<char>>,
    pub content: Option<Seq<char>>,
    pub text_value: Option<Seq<char>>,
    pub delta_content: Option<Seq<char>>,
    pub choice_text: Option<Seq<char>>,
}

impl View for TextFields {
    type V = TextFieldsV;

    open spec fn view(&self) -> TextFieldsV {
        TextFieldsV {
            token_text: view_opt_string(self.token_text),
            content: view_opt_string(self.content),
            text_value: view_opt_string(self.text_value),
            delta_content: view_opt_string(self.delta_content),
            choice_text: view_opt_string(self.choice_text),
        }
    }
}

/// The completion signals the gateway reads from one decoded record.
pub struct FinishFields {
    pub finish_reason: Option<String>,
    pub done: bool,
    pub stop: bool,
    pub completed: bool,
}

/// The mathematical image of `FinishFields`.
pub struct FinishFieldsV {
    pub finish_reason: Option<Seq<char>>,
    pub done: bool,
    pub stop: bool,
    pub completed: bool,
}

impl View for FinishFields {
    type V = FinishFieldsV;

    open spec fn view(&self) -> FinishFieldsV {
        FinishFieldsV {
            finish_reason: view_opt_string(self.finish_reason),
            done: self.done,
            stop: self.stop,
            completed: self.completed,
        }
    }
}

/// What decoding a record payload's text fields yields: `None` exactly when
/// the payload is not parseable JSON. A function of the characters alone.
pub uninterp spec fn text_fields_of(s: Seq<char>) -> Option<TextFieldsV>;

/// What decoding a record payload's completion signals yields: `None`
/// exactly when the payload is not parseable JSON. A function of the
/// characters alone.
pub uninterp spec fn finish_fields_of(s: Seq<char>) -> Option<FinishFieldsV>;

/// Relies on `serde_json::from_str` and `serde_json::Value`'s `get` and
/// `as_str`: parses the payload and picks out the text paths the gateway
/// reads (`token.text`, top-level `content`/`text`, `choices[0].delta.content`,
/// `choices[0].text`), returning `None` exactly when parsing fails.
#[verifier::external_body]
fn decode_text_fields(s: &String) -> (r: Option<TextFields>)
    ensures
        match r {
            Option::Some(f) => text_fields_of(s@) == Option::Some(f@),
            Option::None => text_fields_of(s@) is None,
        },
{
    let v: serde_json::Value = match serde_json::from_str(s.as_str()) {
        Ok(v) => v,
        Err(_) => return None,
    };
    let c0 = v.get("choices").and_then(|c| c.get(0));
    let st = |o: Option<&serde_json::Value>| o.and_then(|t| t.as_str()).map(|t| t.to_string());
    Some(TextFields {
        token_text: st(v.get("token").and_then(|t| t.get("text"))),
        content: st(v.get("content")),
        text_value: st(v.get("text")),
        delta_content: st(c0.and_then(|c| c.get("delta")).and_then(|d| d.get("content"))),
        choice_text: st(c0.and_then(|c| c.get("text"))),
    })
}

/// Relies on `serde_json::from_str` and `serde_json::Value`'s `get`, `as_str`
/// and `as_bool`: parses the payload and picks out `choices[0].finish_reason`
/// and the boolean flags `done`/`stop`/`completed`, returning `None` exactly
/// when parsing fails — that is, exactly when the text decoding does.
#[verifier::external_body]
fn decode_finish_fields(s: &String) -> (r: Option<FinishFields>)
    ensures
        match r {
            Option::Some(f) => finish_fields_of(s@) == Option::Some(f@) && text_fields_of(s@)
                is Some,
            Option::None => finish_fields_of(s@) is None && text_fields_of(s@) is None,
        },
{
    let v: serde_json::Value = match serde_json::from_str(s.as_str()) {
        Ok(v) => v,
        Err(_) => return None,
    };
    let fr = v.get("choices").and_then(|c| c.get(0)).and_then(|c| c.get("finish_reason"));
    let fl = |k: &str| v.get(k).and_then(|d| d.as_bool()).unwrap_or(false);
    Some(FinishFields {
        finish_reason: fr.and_then(|f| f.as_str()).map(|f| f.to_string()),
        done: fl("done"),
        stop: fl("stop"),
        completed: fl("completed"),
    })
}

/// The `data:` record prefix.
pub open spec fn data_prefix() -> Seq<char> {
    seq!['d', 'a', 't', 'a', ':']
}

/// The sentinel payload that closes a stream.
pub open spec fn done_marker() -> Seq<char> {
    seq!['[', 'D', 'O', 'N', 'E', ']']
}

/// The finish reason that signals completion.
pub open spec fn stop_word() -> Seq<char> {
    seq!['s', 't', 'o', 'p']
}

/// The text a decoded record carries: the first of the known shapes that
/// yields a string, else empty.
pub open spec fn chosen_text(f: TextFieldsV) -> Seq<char> {
    if f.token_text is Some {
        f.token_text->0
    } else if f.content is Some {
        f.content->0
    } else if f.text_value is Some {
        f.text_value->0
    } else if f.delta_content is Some {
        f.delta_content->0
    } else if f.choice_text is Some {
        f.choice_text->0
    } else {
        Seq::empty()
    }
}

/// Whether a decoded record signals completion: any of the boolean flags is
/// true, or the finish reason is `stop`.
pub open spec fn is_finish(f: FinishFieldsV) -> bool {
    f.done || f.stop || f.completed || f.finish_reason == Option::Some(stop_word())
}

/// The payload of a trimmed record: an optional `data:` prefix is removed and
/// the remainder trimmed again.
pub open spec fn payload_of(t: Seq<char>) -> Seq<char> {
    if t.len() >= 5 && t.subrange(0, 5) == data_prefix() {
        spec_trim(t.subrange(5, t.len() as int))
    } else {
        t
    }
}

/// What one complete record contributes to the event stream: nothing for a
/// blank or suppressed record, the terminal event for the sentinel, the
/// decoded text and finish signal for parseable JSON, and the raw payload as
/// a non-terminal event when parsing fails.
pub open spec fn record_event(rec: Seq<char>) -> Option<(Seq<char>, bool)> {
    let t = spec_trim(rec);
    if t.len() == 0 {
        Option::None
    } else {
        let p = payload_of(t);
        if p == done_marker() {
            Option::Some((Seq::empty(), true))
        } else {
            match (text_fields_of(p), finish_fields_of(p)) {
                (Option::Some(f), Option::Some(g)) => {
                    let text = chosen_text(f);
                    let fin = is_finish(g);
                    if text.len() > 0 || fin {
                        Option::Some((text, fin))
                    } else {
                        Option::None
                    }
                },
                _ => Option::Some((p, false)),
            }
        }
    }
}

/// The parser's mathematical state: pending characters and whether a terminal
/// event has been produced.
pub struct ParserModel {
    pub buf: Seq<char>,
    pub done: bool,
}

/// The initial parser state.
pub open spec fn init_model() -> ParserModel {
    ParserModel { buf: Seq::empty(), done: false }
}

/// The position of the first record separator `\n\n`, if any.
pub open spec fn find_sep(s: Seq<char>) -> Option<int>
    decreases s.len(),
{
    if s.len() < 2 {
        Option::None
    } else if s[0] == '\n' && s[1] == '\n' {
        Option::Some(0)
    } else {
        match find_sep(s.drop_first()) {
            Option::None => Option::None,
            Option::Some(i) => Option::Some(i + 1),
        }
    }
}

proof fn lemma_find_sep_props(s: Seq<char>)
    ensures
        match find_sep(s) {
            Option::Some(i) => 0 <= i && i + 2 <= s.len() && s[i] == '\n' && s[i + 1] == '\n'
                && forall|j: int| 0 <= j < i ==> !(#[trigger] s[j] == '\n' && s[j + 1] == '\n'),
            Option::None => forall|j: int|
                0 <= j && j + 2 <= s.len() ==> !(#[trigger] s[j] == '\n' && s[j + 1] == '\n'),
        },
    decreases s.len(),
{
    if s.len() < 2 {
    } else if s[0] == '\n' && s[1] == '\n' {
    } else {
        let t = s.drop_first();
        lemma_find_sep_props(t);
        match find_sep(t) {
            Option::None => {
                assert forall|j: int| 0 <= j && j + 2 <= s.len() implies !(#[trigger] s[j] == '\n'
                    && s[j + 1] == '\n') by {
                    if j > 0 {
                        assert(t[j - 1] == s[j]);
                        assert(t[j] == s[j + 1]);
                        assert(!(t[j - 1] == '\n' && t[j - 1 + 1] == '\n'));
                    }
                }
            },
            Option::Some(i) => {
                assert(t[i] == s[i + 1]);
                assert(t[i + 1] == s[i + 2]);
                assert forall|j: int| 0 <= j < i + 1 implies !(#[trigger] s[j] == '\n' && s[j + 1]
                    == '\n') by {
                    if j > 0 {
                        assert(t[j - 1] == s[j]);
                        assert(t[j] == s[j + 1]);
                        assert(!(t[j - 1] == '\n' && t[j - 1 + 1] == '\n'));
                    }
                }
            },
        }
    }
}

proof fn lemma_find_sep_at(s: Seq<char>, i: int)
    requires
        0 <= i,
        i + 2 <= s.len(),
        s[i] == '\n',
        s[i + 1] == '\n',
        forall|j: int| 0 <= j < i ==> !(#[trigger] s[j] == '\n' && s[j + 1] == '\n'),
    ensures
        find_sep(s) == Option::Some(i),
    decreases i,
{
    if i == 0 {
    } else {
        let t = s.drop_first();
        assert(forall|j: int| 0 <= j && j + 1 < s.len() ==> s[j + 1] == #[trigger] t[j]);
        lemma_find_sep_at(t, i - 1);
        assert(!(s[0] == '\n' && s[1] == '\n'));
    }
}

proof fn lemma_find_sep_append(s: Seq<char>, t: Seq<char>)
    requires
        find_sep(s) is Some,
    ensures
        find_sep(s + t) == find_sep(s),
{
    lemma_find_sep_props(s);
    let i = find_sep(s)->0;
    assert(forall|j: int| 0 <= j < s.len() ==> (s + t)[j] == #[trigger] s[j]);
    lemma_find_sep_at(s + t, i);
}

/// The events a single optional event contributes.
pub open spec fn opt_event_seq(e: Option<(Seq<char>, bool)>) -> Seq<(Seq<char>, bool)> {
    match e {
        Option::Some(ev) => seq![ev],
        Option::None => Seq::empty(),
    }
}

/// Whether an optional event is terminal.
pub open spec fn event_terminal(e: Option<(Seq<char>, bool)>) -> bool {
    match e {
        Option::Some(ev) => ev.1,
        Option::None => false,
    }
}

/// Extract and translate every complete record pending in the state, stopping
/// at a terminal event; returns the events produced and the state left.
pub open spec fn drain(m: ParserModel) -> (Seq<(Seq<char>, bool)>, ParserModel)
    decreases m.buf.len(),
{
    if m.done {
        (Seq::empty(), m)
    } else {
        match find_sep(m.buf) {
            Option::None => (Seq::empty(), m),
            Option::Some(i) => if 0 <= i && i + 2 <= m.buf.len() {
                let rec = m.buf.subrange(0, i);
                let rest = m.buf.subrange(i + 2, m.buf.len() as int);
                let ev = record_event(rec);
                let next = ParserModel { buf: rest, done: event_terminal(ev) };
                let tail = drain(next);
                (opt_event_seq(ev) + tail.0, tail.1)
            } else {
                (Seq::empty(), m)
            },
        }
    }
}

/// The events and state that feeding `chunk` to a parser in state `m` yields.
/// A finished parser consumes nothing further.
pub open spec fn spec_feed(m: ParserModel, chunk: Seq<char>) -> (Seq<(Seq<char>, bool)>, ParserModel) {
    if m.done {
        (Seq::empty(), m)
    } else {
        drain(ParserModel { buf: m.buf + chunk, done: false })
    }
}

/// The events and state that closing the transport yields: a parser that
/// never saw a terminal event synthesizes exactly one, so every sequence
/// terminates.
pub open spec fn spec_finish(m: ParserModel) -> (Seq<(Seq<char>, bool)>, ParserModel) {
    if m.done {
        (Seq::empty(), m)
    } else {
        (seq![(Seq::<char>::empty(), true)], ParserModel { buf: m.buf, done: true })
    }
}

/// The mathematical image of a vector of token events.
pub open spec fn events_view(evs: Seq<TokenEvent>) -> Seq<(Seq<char>, bool)>
    decreases evs.len(),
{
    if evs.len() == 0 {
        Seq::empty()
    } else {
        events_view(evs.drop_last()).push(evs.last()@)
    }
}

fn has_data_prefix(v: &Vec<char>) -> (r: bool)
    ensures
        r == (v@.len() >= 5 && v@.subrange(0, 5) == data_prefix()),
{
    if v.len() < 5 {
        return false;
    }
    let r = v[0] == 'd' && v[1] == 'a' && v[2] == 't' && v[3] == 'a' && v[4] == ':';
    proof {
        if r {
            assert(v@.subrange(0, 5) =~= data_prefix());
        } else {
            assert(v@.subrange(0, 5) != data_prefix()) by {
                if v@.subrange(0, 5) == data_prefix() {
                    assert(v@[0] == v@.subrange(0, 5)[0]);
                    assert(v@[1] == v@.subrange(0, 5)[1]);
                    assert(v@[2] == v@.subrange(0, 5)[2]);
                    assert(v@[3] == v@.subrange(0, 5)[3]);
                    assert(v@[4] == v@.subrange(0, 5)[4]);
                }
            }
        }
    }
    r
}

fn is_done_marker(v: &Vec<char>) -> (r: bool)
    ensures
        r == (v@ == done_marker()),
{
    if v.len() != 6 {
        return false;
    }
    let r = v[0] == '[' && v[1] == 'D' && v[2] == 'O' && v[3] == 'N' && v[4] == 'E' && v[5] == ']';
    proof {
        if r {
            assert(v@ =~= done_marker());
        }
    }
    r
}

fn is_stop_word(s: &String) -> (r: bool)
    ensures
        r == (s@ == stop_word()),
{
    let st = s.as_str();
    if st.unicode_len() != 4 {
        return false;
    }
    let r = st.get_char(0) == 's' && st.get_char(1) == 't' && st.get_char(2) == 'o' && st.get_char(
        3,
    ) == 'p';
    proof {
        if r {
            assert(s@ =~= stop_word());
        }
    }
    r
}

fn choose_text_exec(f: &TextFields) -> (r: String)
    ensures
        r@ == chosen_text(f@),
{
    match &f.token_text {
        Option::Some(s) => s.clone(),
        Option::None => match &f.content {
            Option::Some(s) => s.clone(),
            Option::None => match &f.text_value {
                Option::Some(s) => s.clone(),
                Option::None => match &f.delta_content {
                    Option::Some(s) => s.clone(),
                    Option::None => match &f.choice_text {
                        Option::Some(s) => s.clone(),
                        Option::None => String::new(),
                    },
                },
            },
        },
    }
}

fn is_finish_exec(f: &FinishFields) -> (r: bool)
    ensures
        r == is_finish(f@),
{
    if f.done || f.stop || f.completed {
        true
    } else {
        match &f.finish_reason {
            Option::Some(fr) => is_stop_word(fr),
            Option::None => false,
        }
    }
}

/// Translate one complete raw record into its optional event.
fn record_event_exec(rec: &Vec<char>) -> (r: Option<TokenEvent>)
    ensures
        match r {
            Option::Some(ev) => record_event(rec@) == Option::Some(ev@),
            Option::None => record_event(rec@) is None,
        },
{
    let rec_string = string_from_chars(rec);
    let trimmed = trim_str(rec_string.as_str());
    let tv = chars_of_str(trimmed.as_str());
    if tv.len() == 0 {
        return None;
    }
    let p: Vec<char>;
    if has_data_prefix(&tv) {
        let rest = vec_range(&tv, 5, tv.len());
        let rest_string = string_from_chars(&rest);
        let stripped = trim_str(rest_string.as_str());
        p = chars_of_str(stripped.as_str());
    } else {
        p = tv;
    }
    proof {
        assert(p@ == payload_of(spec_trim(rec@)));
    }
    if is_done_marker(&p) {
        return Some(TokenEvent { token: String::new(), finished: true });
    }
    let payload_string = string_from_chars(&p);
    match decode_text_fields(&payload_string) {
        Option::None => Some(TokenEvent { token: payload_string, finished: false }),
        Option::Some(f) => match decode_finish_fields(&payload_string) {
            Option::None => {
                proof {
                    assert(false);
                }
                None
            },
            Option::Some(g) => {
                let fin = is_finish_exec(&g);
                let text = choose_text_exec(&f);
                if text.as_str().unicode_len() > 0 || fin {
                    Some(TokenEvent { token: text, finished: fin })
                } else {
                    None
                }
            },
        },
    }
}

fn find_sep_exec(v: &Vec<char>) -> (r: Option<usize>)
    ensures
        match r {
            Option::Some(i) => find_sep(v@) == Option::Some(i as int) && i + 2 <= v@.len(),
            Option::None => find_sep(v@) is None,
        },
{
    let n = v.len();
    if n < 2 {
        return None;
    }
    let mut i: usize = 0;
    while i <= n - 2
        invariant
            n == v@.len(),
            2 <= n,
            0 <= i <= n - 1,
            forall|j: int| 0 <= j < i ==> !(#[trigger] v@[j] == '\n' && v@[j + 1] == '\n'),
        decreases n - i,
    {
        if v[i] == '\n' && v[i + 1] == '\n' {
            proof {
                lemma_find_sep_at(v@, i as int);
            }
            return Some(i);
        }
        i = i + 1;
    }
    proof {
        lemma_find_sep_props(v@);
        if find_sep(v@) is Some {
            let k = find_sep(v@)->0;
            assert(!(v@[k] == '\n' && v@[k + 1] == '\n'));
        }
    }
    None
}

/// The incremental stream parser. Characters go in as the transport delivers
/// them; complete records come out as token events. After a terminal event
/// the parser is finished and consumes nothing further.
pub struct StreamParser {
    buf: Vec<char>,
    done: bool,
}

impl StreamParser {
    /// The parser's mathematical state.
    pub closed spec fn model(&self) -> ParserModel {
        ParserModel { buf: self.buf@, done: self.done }
    }

    /// A fresh parser with nothing pending.
    pub fn new() -> (p: StreamParser)
        ensures
            p.model() == init_model(),
    {
        StreamParser { buf: Vec::new(), done: false }
    }

    /// Whether a terminal event has been produced.
    pub fn is_finished(&self) -> (r: bool)
        ensures
            r == self.model().done,
    {
        self.done
    }

    /// Feed one fragment of the transport stream; returns the events of every
    /// record completed by it. The split of the stream into fragments does
    /// not affect what is eventually returned.
    pub fn feed(&mut self, chunk: &str) -> (events: Vec<TokenEvent>)
        ensures
            events_view(events@) == spec_feed(old(self).model(), chunk@).0,
            final(self).model() == spec_feed(old(self).model(), chunk@).1,
    {
        let mut events: Vec<TokenEvent> = Vec::new();
        if self.done {
            return events;
        }
        let mut add = chars_of_str(chunk);
        self.buf.append(&mut add);
        let ghost m0 = ParserModel { buf: self.buf@, done: false };
        proof {
            assert(m0.buf == old(self).model().buf + chunk@);
        }
        loop
            invariant_except_break
                !self.done,
                drain(m0).0 == events_view(events@) + drain(
                    ParserModel { buf: self.buf@, done: false },
                ).0,
                drain(m0).1 == drain(ParserModel { buf: self.buf@, done: false }).1,
            ensures
                drain(m0).0 == events_view(events@),
                drain(m0).1 == (ParserModel { buf: self.buf@, done: self.done }),
            decreases self.buf@.len(),
        {
            let ghost cur = ParserModel { buf: self.buf@, done: false };
            let ghost evs0 = events@;
            match find_sep_exec(&self.buf) {
                Option::None => {
                    proof {
                        assert(events_view(evs0) + drain(cur).0 =~= events_view(evs0));
                    }
                    break ;
                },
                Option::Some(i) => {
                    let n = self.buf.len();
                    let rec = vec_range(&self.buf, 0, i);
                    let rest = vec_range(&self.buf, i + 2, n);
                    self.buf = rest;
                    let ev = record_event_exec(&rec);
                    let ghost spec_ev = record_event(rec@);
                    let ghost next = ParserModel { buf: self.buf@, done: event_terminal(spec_ev) };
                    proof {
                        assert(drain(cur) == (opt_event_seq(spec_ev) + drain(next).0, drain(
                            next,
                        ).1));
                    }
                    match ev {
                        Option::None => {
                            proof {
                                assert(opt_event_seq(spec_ev) + drain(next).0 =~= drain(next).0);
                            }
                        },
                        Option::Some(token_event) => {
                            let fin = token_event.finished;
                            let ghost tv = token_event@;
                            proof {
                                lemma_events_view_push(evs0, token_event);
                            }
                            events.push(token_event);
                            if fin {
                                self.done = true;
                                proof {
                                    assert(drain(next).0 =~= Seq::<(Seq<char>, bool)>::empty());
                                    assert(opt_event_seq(spec_ev) + drain(next).0 =~= seq![tv]);
                                    assert(events_view(evs0) + seq![tv] =~= events_view(
                                        evs0,
                                    ).push(tv));
                                    assert(drain(m0).1 == next);
                                }
                                break ;
                            } else {
                                proof {
                                    assert(events_view(evs0) + (seq![tv] + drain(next).0)
                                        =~= events_view(evs0).push(tv) + drain(next).0);
                                }
                            }
                        },
                    }
                },
            }
        }
        events
    }

    /// Close the transport. A parser that never produced a terminal event
    /// synthesizes exactly one empty finished event; a finished parser
    /// returns nothing.
    pub fn finish(&mut self) -> (events: Vec<TokenEvent>)
        ensures
            events_view(events@) == spec_finish(old(self).model()).0,
            final(self).model() == spec_finish(old(self).model()).1,
    {
        let mut events: Vec<TokenEvent> = Vec::new();
        if !self.done {
            events.push(TokenEvent { token: String::new(), finished: true });
            self.done = true;
            proof {
                let e = events@.last();
                assert(events@.drop_last() =~= Seq::<TokenEvent>::empty());
                assert(events_view(events@) == events_view(Seq::<TokenEvent>::empty()).push(e@));
                assert(events_view(events@) =~= seq![(Seq::<char>::empty(), true)]);
            }
        }
        events
    }
}

/// Two parser states that no future input can tell apart: the same finished
/// flag, and the same pending characters while unfinished.
pub open spec fn models_equivalent(m1: ParserModel, m2: ParserModel) -> bool {
    m1.done == m2.done && (!m1.done ==> m1.buf == m2.buf)
}

proof fn lemma_drain_extend(buf: Seq<char>, b: Seq<char>)
    ensures
        drain(ParserModel { buf: buf + b, done: false }).0 == drain(
            ParserModel { buf, done: false },
        ).0 + spec_feed(drain(ParserModel { buf, done: false }).1, b).0,
        models_equivalent(
            drain(ParserModel { buf: buf + b, done: false }).1,
            spec_feed(drain(ParserModel { buf, done: false }).1, b).1,
        ),
    decreases buf.len(),
{
    let m = ParserModel { buf, done: false };
    match find_sep(buf) {
        Option::None => {
            assert(drain(m) == (Seq::<(Seq<char>, bool)>::empty(), m));
            assert(drain(ParserModel { buf: buf + b, done: false }).0 =~= Seq::<(
                Seq<char>,
                bool,
            )>::empty() + drain(ParserModel { buf: buf + b, done: false }).0);
        },
        Option::Some(i) => {
            lemma_find_sep_props(buf);
            lemma_find_sep_append(buf, b);
            let whole = buf + b;
            assert(whole.subrange(0, i) =~= buf.subrange(0, i));
            assert(whole.subrange(i + 2, whole.len() as int) =~= buf.subrange(
                i + 2,
                buf.len() as int,
            ) + b);
            let rec = buf.subrange(0, i);
            let rest = buf.subrange(i + 2, buf.len() as int);
            let ev = record_event(rec);
            if event_terminal(ev) {
                let next = ParserModel { buf: rest, done: true };
                let next_w = ParserModel { buf: rest + b, done: true };
                assert(drain(next) == (Seq::<(Seq<char>, bool)>::empty(), next));
                assert(drain(next_w) == (Seq::<(Seq<char>, bool)>::empty(), next_w));
                assert(drain(ParserModel { buf: whole, done: false }).0 =~= opt_event_seq(ev));
                assert(drain(m).0 =~= opt_event_seq(ev));
                assert(spec_feed(next, b) == (Seq::<(Seq<char>, bool)>::empty(), next));
                assert(drain(m).0 + spec_feed(drain(m).1, b).0 =~= opt_event_seq(ev));
            } else {
                lemma_drain_extend(rest, b);
                let next = ParserModel { buf: rest, done: false };
                assert(drain(ParserModel { buf: whole, done: false }).0 == opt_event_seq(ev)
                    + drain(ParserModel { buf: rest + b, done: false }).0);
                assert(drain(m).0 == opt_event_seq(ev) + drain(next).0);
                assert(drain(m).1 == drain(next).1);
                assert(opt_event_seq(ev) + (drain(next).0 + spec_feed(drain(next).1, b).0)
                    =~= (opt_event_seq(ev) + drain(next).0) + spec_feed(drain(next).1, b).0);
            }
        },
    }
}

/// Feeding one character sequence in two fragments, split anywhere, yields
/// the same events as feeding it whole, and leaves the parser in a state no
/// future input can tell apart. The parser's output is therefore independent
/// of how the transport fragments the stream.
pub proof fn lemma_feed_split(m: ParserModel, a: Seq<char>, b: Seq<char>)
    ensures
        spec_feed(m, a + b).0 == spec_feed(m, a).0 + spec_feed(spec_feed(m, a).1, b).0,
        models_equivalent(spec_feed(m, a + b).1, spec_feed(spec_feed(m, a).1, b).1),
{
    if m.done {
        assert(spec_feed(m, a + b).0 =~= spec_feed(m, a).0 + spec_feed(spec_feed(m, a).1, b).0);
    } else {
        assert(m.buf + (a + b) =~= (m.buf + a) + b);
        lemma_drain_extend(m.buf + a, b);
    }
}

/// A parser state that no future input can tell apart from another feeds to
/// results that no future input can tell apart, with the same events.
pub proof fn lemma_equivalent_feed(m1: ParserModel, m2: ParserModel, chunk: Seq<char>)
    requires
        models_equivalent(m1, m2),
    ensures
        spec_feed(m1, chunk).0 == spec_feed(m2, chunk).0,
        models_equivalent(spec_feed(m1, chunk).1, spec_feed(m2, chunk).1),
{
}

/// A finished parser consumes nothing and emits nothing: once a terminal
/// event has been produced, no further events follow.
pub proof fn lemma_finished_emits_nothing(m: ParserModel, chunk: Seq<char>)
    requires
        m.done,
    ensures
        spec_feed(m, chunk).0 == Seq::<(Seq<char>, bool)>::empty(),
        spec_feed(m, chunk).1 == m,
        spec_finish(m).0 == Seq::<(Seq<char>, bool)>::empty(),
        spec_finish(m).1 == m,
{
}

/// Within what one feed returns, a terminal event can only be the last
/// event, and the parser is finished afterwards exactly when one appeared.
pub proof fn lemma_terminal_is_last(m: ParserModel)
    ensures
        forall|k: int|
            0 <= k < drain(m).0.len() && (#[trigger] drain(m).0[k]).1 ==> k == drain(m).0.len()
                - 1,
        drain(m).0.len() > 0 && drain(m).0.last().1 ==> drain(m).1.done,
        m.done == false && (drain(m).0.len() == 0 || !drain(m).0.last().1) ==> !drain(m).1.done,
    decreases m.buf.len(),
{
    if m.done {
    } else {
        match find_sep(m.buf) {
            Option::None => {},
            Option::Some(i) => {
                if 0 <= i && i + 2 <= m.buf.len() {
                    let rec = m.buf.subrange(0, i);
                    let rest = m.buf.subrange(i + 2, m.buf.len() as int);
                    let ev = record_event(rec);
                    let next = ParserModel { buf: rest, done: event_terminal(ev) };
                    lemma_terminal_is_last(next);
                    if event_terminal(ev) {
                        assert(drain(next).0 =~= Seq::<(Seq<char>, bool)>::empty());
                        assert(drain(m).0 =~= opt_event_seq(ev));
                    }
                }
            },
        }
    }
}

/// A parseable record that signals completion contributes exactly one event
/// carrying both its chosen text and the finished flag.
pub proof fn lemma_terminal_record_event(rec: Seq<char>)
    requires
        spec_trim(rec).len() > 0,
        payload_of(spec_trim(rec)) != done_marker(),
        text_fields_of(payload_of(spec_trim(rec))) is Some,
        finish_fields_of(payload_of(spec_trim(rec))) is Some,
        is_finish(finish_fields_of(payload_of(spec_trim(rec)))->0),
    ensures
        record_event(rec) == Option::Some(
            (chosen_text(text_fields_of(payload_of(spec_trim(rec)))->0), true),
        ),
{
}

/// Within what one feed returns, a terminal event is the last event, and the
/// parser is finished afterwards exactly when one appeared: once an event
/// with the finished flag is produced, no further events follow.
pub proof fn lemma_feed_terminal_is_last(m: ParserModel, chunk: Seq<char>)
    ensures
        forall|k: int|
            0 <= k < spec_feed(m, chunk).0.len() && (#[trigger] spec_feed(m, chunk).0[k]).1 ==> k
                == spec_feed(m, chunk).0.len() - 1,
        spec_feed(m, chunk).0.len() > 0 && spec_feed(m, chunk).0.last().1 ==> spec_feed(
            m,
            chunk,
        ).1.done,
{
    if !m.done {
        lemma_terminal_is_last(ParserModel { buf: m.buf + chunk, done: false });
    }
}

/// A record whose payload is not parseable JSON contributes exactly one
/// non-terminal event carrying the trimmed payload, never a silent drop.
pub proof fn lemma_unparseable_record(rec: Seq<char>)
    requires
        spec_trim(rec).len() > 0,
        payload_of(spec_trim(rec)) != done_marker(),
        text_fields_of(payload_of(spec_trim(rec))) is None,
    ensures
        record_event(rec) == Option::Some((payload_of(spec_trim(rec)), false)),
{
}

proof fn lemma_events_view_push(evs: Seq<TokenEvent>, e: TokenEvent)
    ensures
        events_view(evs.push(e)) == events_view(evs).push(e@),
{
    assert(evs.push(e).drop_last() =~= evs);
    assert(evs.push(e).last() == e);
}

/// The image of a vector of token events is its events, index by index.
pub proof fn lemma_events_view_index(s: Seq<TokenEvent>)
    ensures
        events_view(s).len() == s.len(),
        forall|i: int| 0 <= i < s.len() ==> #[trigger] events_view(s)[i] == s[i]@,
    decreases s.len(),
{
    if s.len() > 0 {
        lemma_events_view_index(s.drop_last());
    }
}

} // verus!
