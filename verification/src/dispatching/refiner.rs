use vstd::prelude::*;
use crate::dispatching::update_with_cx::UpdateWithCx;
use crate::types::message::Message;
use crate::types::update::{TaggedEvent, UpdateKind};
use crate::utils::command::{
    spec_parse, CommandTable, CommandValue, SpecCommandTable, SpecCommandValue,
};

verus! {

// ------------------------------------------------------------------
// The narrowing filters, as mathematics
// ------------------------------------------------------------------

/// The message-kind narrowing of a raw event stream: each message event,
/// in source order, paired with its context.
pub open spec fn spec_message_events(s: Seq<TaggedEvent>) -> Seq<UpdateWithCx<Message>>
    decreases s.len(),
{
    if s.len() == 0 {
        Seq::empty()
    } else {
        let rest = spec_message_events(s.drop_last());
        match s.last().kind {
            UpdateKind::Message(m) => rest.push(UpdateWithCx { cx: s.last().cx, update: m }),
            _ => rest,
        }
    }
}

/// The text filter: each message with textual content, in source order,
/// paired with that text; messages without text are discarded, not
/// errors.
pub open spec fn spec_text_filter(s: Seq<UpdateWithCx<Message>>) -> Seq<
    (UpdateWithCx<Message>, Seq<char>),
>
    decreases s.len(),
{
    if s.len() == 0 {
        Seq::empty()
    } else {
        let rest = spec_text_filter(s.drop_last());
        match s.last().update.text {
            Some(t) => rest.push((s.last(), t@)),
            None => rest,
        }
    }
}

/// The command filter: each text item whose text parses as a command for
/// this bot, in order, paired with the parsed command; parse failure is a
/// filtering decision, not a pipeline fault.
pub open spec fn spec_command_filter(
    s: Seq<(UpdateWithCx<Message>, Seq<char>)>,
    table: SpecCommandTable,
    bot_name: Seq<char>,
) -> Seq<(UpdateWithCx<Message>, SpecCommandValue)>
    decreases s.len(),
{
    if s.len() == 0 {
        Seq::empty()
    } else {
        let rest = spec_command_filter(s.drop_last(), table, bot_name);
        match spec_parse(table, s.last().1, bot_name) {
            Ok(v) => rest.push((s.last().0, v)),
            Err(_) => rest,
        }
    }
}

// ------------------------------------------------------------------
// The text filter laws
// ------------------------------------------------------------------

/// Text filter membership: an item stands in the output exactly when it
/// stands in the input and carries textual content, and it is paired with
/// that text.
pub proof fn lemma_text_filter_membership(s: Seq<UpdateWithCx<Message>>)
    ensures
        forall|k: int| 0 <= k < spec_text_filter(s).len() ==> s.contains(
            (#[trigger] spec_text_filter(s)[k]).0,
        ) && spec_text_filter(s)[k].0.update.text is Some && spec_text_filter(s)[k].1
            == spec_text_filter(s)[k].0.update.text->0@,
        forall|e: UpdateWithCx<Message>| s.contains(e) && e.update.text is Some
            ==> spec_text_filter(s).contains((e, e.update.text->0@)),
    decreases s.len(),
{
    if s.len() > 0 {
        lemma_text_filter_membership(s.drop_last());
        let pre = s.drop_last();
        let f = spec_text_filter(s);
        let fp = spec_text_filter(pre);
        assert forall|k: int|
            0 <= k < f.len() implies s.contains((#[trigger] f[k]).0) && f[k].0.update.text is Some
            && f[k].1 == f[k].0.update.text->0@ by {
            if s.last().update.text is Some && k == f.len() - 1 {
                assert(f[k] == (s.last(), s.last().update.text->0@));
                assert(s[s.len() - 1] == s.last());
            } else {
                assert(f[k] == fp[k]);
                assert(pre.contains(fp[k].0));
                let w = choose|w: int| 0 <= w < pre.len() && pre[w] == fp[k].0;
                assert(s[w] == f[k].0);
            }
        }
        assert forall|e: UpdateWithCx<Message>|
            s.contains(e) && e.update.text is Some implies spec_text_filter(s).contains(
            (e, e.update.text->0@),
        ) by {
            let w = choose|w: int| 0 <= w < s.len() && s[w] == e;
            if w < s.len() - 1 {
                assert(pre[w] == e);
                assert(pre.contains(e));
                assert(fp.contains((e, e.update.text->0@)));
                let k = choose|k: int| 0 <= k < fp.len() && fp[k] == (e, e.update.text->0@);
                assert(f[k] == (e, e.update.text->0@));
            } else {
                assert(s.last() == e);
                assert(f.last() == (e, e.update.text->0@));
            }
        }
    }
}

/// Where a text-carrying input item lands in the text filter's output:
/// after exactly the earlier text-carrying items.
pub proof fn lemma_text_filter_position(s: Seq<UpdateWithCx<Message>>, i: int)
    requires
        0 <= i < s.len(),
        s[i].update.text is Some,
    ensures
        spec_text_filter(s.take(i)).len() < spec_text_filter(s).len(),
        spec_text_filter(s)[spec_text_filter(s.take(i)).len() as int] == (
            s[i],
            s[i].update.text->0@,
        ),
    decreases s.len(),
{
    if i == s.len() - 1 {
        assert(s.take(i) =~= s.drop_last());
        assert(s.last() == s[i]);
    } else {
        lemma_text_filter_position(s.drop_last(), i);
        assert(s.drop_last().take(i) =~= s.take(i));
        assert(s.drop_last()[i] == s[i]);
    }
}

/// The text filter of a longer prefix is never shorter.
pub proof fn lemma_text_filter_monotone(s: Seq<UpdateWithCx<Message>>, i: int, j: int)
    requires
        0 <= i <= j <= s.len(),
    ensures
        spec_text_filter(s.take(i)).len() <= spec_text_filter(s.take(j)).len(),
    decreases j - i,
{
    if i < j {
        lemma_text_filter_monotone(s, i, j - 1);
        assert(s.take(j).drop_last() =~= s.take(j - 1));
        assert(s.take(j).last() == s[j - 1]);
    }
}

/// Text filter order preservation: two text-carrying input items appear
/// in the output at positions in their input order, as a subsequence.
pub proof fn lemma_text_filter_order(s: Seq<UpdateWithCx<Message>>, i: int, j: int)
    requires
        0 <= i < j < s.len(),
        s[i].update.text is Some,
        s[j].update.text is Some,
    ensures
        spec_text_filter(s.take(i)).len() < spec_text_filter(s.take(j)).len() < spec_text_filter(
            s,
        ).len(),
        spec_text_filter(s)[spec_text_filter(s.take(i)).len() as int] == (
            s[i],
            s[i].update.text->0@,
        ),
        spec_text_filter(s)[spec_text_filter(s.take(j)).len() as int] == (
            s[j],
            s[j].update.text->0@,
        ),
{
    lemma_text_filter_position(s, i);
    lemma_text_filter_position(s, j);
    assert(s.take(i + 1).drop_last() =~= s.take(i));
    assert(s.take(i + 1).last() == s[i]);
    lemma_text_filter_monotone(s, i + 1, j);
}

// ------------------------------------------------------------------
// Executable refiners
// ------------------------------------------------------------------

/// Whether an executable text-filter output carries exactly the
/// spec-level one.
pub open spec fn text_pairs_match(
    out: Seq<(UpdateWithCx<Message>, String)>,
    f: Seq<(UpdateWithCx<Message>, Seq<char>)>,
) -> bool {
    out.len() == f.len() && forall|i: int|
        0 <= i < out.len() ==> (#[trigger] out[i]).0 == f[i].0 && out[i].1@ == f[i].1
}

/// Whether an executable command-filter output carries exactly the
/// spec-level one.
pub open spec fn command_pairs_match(
    out: Seq<(UpdateWithCx<Message>, CommandValue)>,
    f: Seq<(UpdateWithCx<Message>, SpecCommandValue)>,
) -> bool {
    out.len() == f.len() && forall|i: int|
        0 <= i < out.len() ==> (#[trigger] out[i]).0 == f[i].0 && out[i].1@ == f[i].1
}

/// Narrows one raw event to a message with its context, when it is one.
pub fn message_event(e: TaggedEvent) -> (r: Option<UpdateWithCx<Message>>)
    ensures
        match e.kind {
            UpdateKind::Message(m) => r == Some(UpdateWithCx { cx: e.cx, update: m }),
            _ => r is None,
        },
{
    match e.kind {
        UpdateKind::Message(m) => Some(UpdateWithCx { cx: e.cx, update: m }),
        _ => None,
    }
}

/// Narrows one message event to its textual content, when it has any.
pub fn refine_text(cx: UpdateWithCx<Message>) -> (r: Option<(UpdateWithCx<Message>, String)>)
    ensures
        match r {
            Some(p) => cx.update.text is Some && p.0 == cx && p.1@ == cx.update.text->0@,
            None => cx.update.text is None,
        },
{
    match cx.update.text_owned() {
        Some(t) => Some((cx, t)),
        None => None,
    }
}

/// Narrows one text item to a parsed command, when its text parses as a
/// command for this bot.
pub fn refine_command(
    item: (UpdateWithCx<Message>, String),
    table: &CommandTable,
    bot_name: &str,
) -> (r: Option<(UpdateWithCx<Message>, CommandValue)>)
    ensures
        match spec_parse(table@, item.1@, bot_name@) {
            Ok(v) => r is Some && (r->0).0 == item.0 && (r->0).1@ == v,
            Err(_) => r is None,
        },
{
    let (cx, text) = item;
    match table.parse(text.as_str(), bot_name) {
        Ok(v) => Some((cx, v)),
        Err(_) => None,
    }
}

/// The message-kind narrowing of a batch of raw events.
#[verifier::loop_isolation(false)]
pub fn message_events(events: Vec<TaggedEvent>) -> (out: Vec<UpdateWithCx<Message>>)
    ensures
        out@ == spec_message_events(events@),
{
    let ghost src = events@;
    let mut events = events;
    let mut out: Vec<UpdateWithCx<Message>> = Vec::new();
    let ghost mut i: int = 0;
    proof {
        assert(src.take(0) =~= Seq::<TaggedEvent>::empty());
        assert(src.skip(0) =~= src);
    }
    while events.len() > 0
        invariant
            0 <= i <= src.len(),
            events@ == src.skip(i),
            out@ == spec_message_events(src.take(i)),
        decreases events@.len(),
    {
        let e = events.remove(0);
        proof {
            assert(src.skip(i)[0] == src[i]);
            assert(src.skip(i).remove(0) =~= src.skip(i + 1));
            assert(src.take(i + 1).drop_last() =~= src.take(i));
            assert(src.take(i + 1).last() == src[i]);
        }
        match message_event(e) {
            Some(m) => {
                out.push(m);
            },
            None => {},
        }
        proof {
            i = i + 1;
        }
    }
    proof {
        assert(src.take(i) =~= src);
    }
    out
}

/// Extracts only the text-carrying messages from a batch of message
/// events: a pure, order-preserving narrowing.
#[verifier::loop_isolation(false)]
pub fn text_messages(input: Vec<UpdateWithCx<Message>>) -> (out: Vec<
    (UpdateWithCx<Message>, String),
>)
    ensures
        text_pairs_match(out@, spec_text_filter(input@)),
{
    let ghost src = input@;
    let mut input = input;
    let mut out: Vec<(UpdateWithCx<Message>, String)> = Vec::new();
    let ghost mut i: int = 0;
    proof {
        assert(src.take(0) =~= Seq::<UpdateWithCx<Message>>::empty());
        assert(src.skip(0) =~= src);
    }
    while input.len() > 0
        invariant
            0 <= i <= src.len(),
            input@ == src.skip(i),
            text_pairs_match(out@, spec_text_filter(src.take(i))),
        decreases input@.len(),
    {
        let e = input.remove(0);
        proof {
            assert(src.skip(i)[0] == src[i]);
            assert(src.skip(i).remove(0) =~= src.skip(i + 1));
            assert(src.take(i + 1).drop_last() =~= src.take(i));
            assert(src.take(i + 1).last() == src[i]);
        }
        match refine_text(e) {
            Some(p) => {
                out.push(p);
            },
            None => {},
        }
        proof {
            i = i + 1;
        }
    }
    proof {
        assert(src.take(i) =~= src);
    }
    out
}

/// Extracts only the commands, with their parsed arguments, from a batch
/// of message events: the text filter followed by the command grammar,
/// discarding silently whatever does not parse for this bot.
#[verifier::loop_isolation(false)]
pub fn commands(
    input: Vec<UpdateWithCx<Message>>,
    table: &CommandTable,
    bot_name: &str,
) -> (out: Vec<(UpdateWithCx<Message>, CommandValue)>)
    ensures
        command_pairs_match(
            out@,
            spec_command_filter(spec_text_filter(input@), table@, bot_name@),
        ),
{
    let ghost f = spec_text_filter(input@);
    let texts = text_messages(input);
    let ghost src = texts@;
    let mut texts = texts;
    let mut out: Vec<(UpdateWithCx<Message>, CommandValue)> = Vec::new();
    let ghost mut i: int = 0;
    proof {
        assert(f.take(0) =~= Seq::<(UpdateWithCx<Message>, Seq<char>)>::empty());
        assert(src.skip(0) =~= src);
    }
    while texts.len() > 0
        invariant
            0 <= i <= src.len(),
            texts@ == src.skip(i),
            src.len() == f.len(),
            text_pairs_match(src, f),
            command_pairs_match(out@, spec_command_filter(f.take(i), table@, bot_name@)),
        decreases texts@.len(),
    {
        let p = texts.remove(0);
        proof {
            assert(src.skip(i)[0] == src[i]);
            assert(src.skip(i).remove(0) =~= src.skip(i + 1));
            assert(f.take(i + 1).drop_last() =~= f.take(i));
            assert(f.take(i + 1).last() == f[i]);
            assert(p.0 == f[i].0 && p.1@ == f[i].1);
        }
        match refine_command(p, table, bot_name) {
            Some(c) => {
                out.push(c);
            },
            None => {},
        }
        proof {
            i = i + 1;
        }
    }
    proof {
        assert(f.take(i) =~= f);
    }
    out
}

} // verus!
