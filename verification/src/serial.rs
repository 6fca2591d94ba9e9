use vstd::prelude::*;
use crate::linebuf::texts;

verus! {

/// What the reader of an open port reports.
pub enum SerialEvent {
    /// Bytes received from the device.
    Data(Vec<u8>),
    /// A read failed; the text says why.
    Error(String),
    /// The port stopped delivering data.
    Closed,
}

/// `a` comes no later than `b` in the order of `String`: character by
/// character by code point, a prefix first.
pub open spec fn text_le(a: Seq<char>, b: Seq<char>) -> bool
    decreases a.len(),
{
    if a.len() == 0 {
        true
    } else if b.len() == 0 {
        false
    } else if (a[0] as u32) == (b[0] as u32) {
        text_le(a.drop_first(), b.drop_first())
    } else {
        (a[0] as u32) < (b[0] as u32)
    }
}

/// Each text comes no later than the next one.
pub open spec fn is_sorted(names: Seq<Seq<char>>) -> bool {
    forall|i: int| 0 <= i < names.len() - 1 ==> text_le(#[trigger] names[i], names[i + 1])
}

/// Of two texts, one comes no later than the other.
pub proof fn lemma_text_le_total(a: Seq<char>, b: Seq<char>)
    ensures
        text_le(a, b) || text_le(b, a),
    decreases a.len(),
{
    if a.len() > 0 && b.len() > 0 && (a[0] as u32) == (b[0] as u32) {
        lemma_text_le_total(a.drop_first(), b.drop_first());
    }
}

/// `a` comes no later than `b` exactly as `String` orders them: at the first
/// position where they differ, `a` has the smaller code point, or `a` is a
/// prefix of `b`.
pub proof fn law_text_le_is_string_order(a: Seq<char>, b: Seq<char>)
    ensures
        text_le(a, b) <==> exists|i: int|
            0 <= i <= a.len() && i <= b.len() && #[trigger] a.take(i) == b.take(i) && (i == a.len()
                || (i < b.len() && (a[i] as u32) < (b[i] as u32))),
    decreases a.len(),
{
    if a.len() == 0 {
        assert(a.take(0) =~= b.take(0));
    } else if b.len() == 0 {
        assert forall|i: int| 0 <= i <= a.len() && i <= b.len() && a.take(i) == b.take(i) implies !(
        i == a.len() || (i < b.len() && (a[i] as u32) < (b[i] as u32))) by {}
    } else {
        let a1 = a.drop_first();
        let b1 = b.drop_first();
        law_text_le_is_string_order(a1, b1);
        if (a[0] as u32) == (b[0] as u32) {
            vstd::utf8::char_u32_cast(a[0], a[0] as u32);
            vstd::utf8::char_u32_cast(b[0], b[0] as u32);
            assert(a[0] == b[0]);
            if text_le(a1, b1) {
                let j = choose|j: int|
                    0 <= j <= a1.len() && j <= b1.len() && #[trigger] a1.take(j) == b1.take(j) && (j
                        == a1.len() || (j < b1.len() && (a1[j] as u32) < (b1[j] as u32)));
                assert(a.take(j + 1) =~= seq![a[0]] + a1.take(j));
                assert(b.take(j + 1) =~= seq![b[0]] + b1.take(j));
                assert(a.take(j + 1) == b.take(j + 1));
            } else {
                assert forall|i: int|
                    0 <= i <= a.len() && i <= b.len() && #[trigger] a.take(i) == b.take(i) implies !(i
                    == a.len() || (i < b.len() && (a[i] as u32) < (b[i] as u32))) by {
                    if i >= 1 {
                        assert(a1.take(i - 1) =~= a.take(i).drop_first());
                        assert(b1.take(i - 1) =~= b.take(i).drop_first());
                        assert(a1.take(i - 1) == b1.take(i - 1));
                        if i == a.len() {
                        } else if i < b.len() {
                            assert(a[i] == a1[i - 1]);
                            assert(b[i] == b1[i - 1]);
                        }
                    } else {
                        assert(a.take(0).len() == 0);
                    }
                }
            }
        } else {
            if (a[0] as u32) < (b[0] as u32) {
                assert(a.take(0) =~= b.take(0));
            } else {
                assert forall|i: int|
                    0 <= i <= a.len() && i <= b.len() && #[trigger] a.take(i) == b.take(i) implies !(i
                    == a.len() || (i < b.len() && (a[i] as u32) < (b[i] as u32))) by {
                    if i >= 1 {
                        assert(a.take(i)[0] == b.take(i)[0]);
                    }
                }
            }
        }
    }
}

/// Two texts that each come no later than the other are the same text, so a
/// sorted list of names is unique.
pub proof fn law_text_le_antisymmetric(a: Seq<char>, b: Seq<char>)
    requires
        text_le(a, b),
        text_le(b, a),
    ensures
        a == b,
    decreases a.len(),
{
    if a.len() == 0 {
        assert(b.len() == 0);
        assert(a =~= b);
    } else {
        assert(b.len() > 0);
        if (a[0] as u32) == (b[0] as u32) {
            law_text_le_antisymmetric(a.drop_first(), b.drop_first());
            vstd::utf8::char_u32_cast(a[0], a[0] as u32);
            vstd::utf8::char_u32_cast(b[0], b[0] as u32);
            assert(a =~= seq![a[0]] + a.drop_first());
            assert(b =~= seq![b[0]] + b.drop_first());
        }
    }
}

/// The characters of `s`, in order.
fn chars_of(s: &str) -> (chars: Vec<char>)
    ensures
        chars@ == s@,
{
    let n = s.unicode_len();
    let mut chars: Vec<char> = Vec::new();
    for i in 0..n
        invariant
            n == s@.len(),
            chars@ == s@.take(i as int),
    {
        chars.push(s.get_char(i));
        assert(chars@ =~= s@.take(i + 1));
    }
    assert(s@.take(n as int) =~= s@);
    chars
}

/// Whether `a` comes no later than `b`.
fn text_le_exec(a: &String, b: &String) -> (le: bool)
    ensures
        le == text_le(a@, b@),
{
    let x = chars_of(a.as_str());
    let y = chars_of(b.as_str());
    let mut i: usize = 0;
    assert(x@.skip(0) =~= x@);
    assert(y@.skip(0) =~= y@);
    while i < x.len() && i < y.len() && (x[i] as u32) == (y[i] as u32)
        invariant
            0 <= i <= x@.len(),
            i <= y@.len(),
            text_le(a@, b@) == text_le(x@.skip(i as int), y@.skip(i as int)),
            x@ == a@,
            y@ == b@,
        decreases x@.len() - i,
    {
        assert(x@.skip(i as int).drop_first() =~= x@.skip(i + 1));
        assert(y@.skip(i as int).drop_first() =~= y@.skip(i + 1));
        i = i + 1;
    }
    if i == x.len() {
        true
    } else if i == y.len() {
        false
    } else {
        (x[i] as u32) < (y[i] as u32)
    }
}

/// Sorts port names into the order of `String`.
pub fn sort_port_names(names: Vec<String>) -> (sorted: Vec<String>)
    ensures
        sorted@.to_multiset() == names@.to_multiset(),
        is_sorted(texts(sorted@)),
{
    broadcast use {vstd::seq_lib::group_to_multiset_ensures, vstd::multiset::group_multiset_axioms};

    let mut rest = names;
    let mut sorted: Vec<String> = Vec::new();
    while rest.len() > 0
        invariant
            sorted@.to_multiset().add(rest@.to_multiset()) == names@.to_multiset(),
            is_sorted(texts(sorted@)),
        decreases rest@.len(),
    {
        let ghost before = rest@;
        let name = rest.pop().unwrap();
        assert(before == rest@.push(name));
        let mut pos: usize = 0;
        while pos < sorted.len() && text_le_exec(&sorted[pos], &name)
            invariant
                0 <= pos <= sorted@.len(),
                forall|k: int| 0 <= k < pos ==> text_le(#[trigger] sorted@[k]@, name@),
            decreases sorted@.len() - pos,
        {
            pos = pos + 1;
        }
        let ghost old_sorted = sorted@;
        proof {
            if pos < old_sorted.len() {
                lemma_text_le_total(old_sorted[pos as int]@, name@);
            }
        }
        sorted.insert(pos, name);
        proof {
            old_sorted.insert_ensures(pos as int, name);
            vstd::seq_lib::to_multiset_insert(old_sorted, pos as int, name);
            vstd::seq_lib::to_multiset_build(rest@, name);
            assert(sorted@.to_multiset().add(rest@.to_multiset()) =~= old_sorted.to_multiset().add(
                before.to_multiset(),
            ));
            let t = texts(sorted@);
            assert forall|i: int| 0 <= i < t.len() - 1 implies text_le(#[trigger] t[i], t[i + 1]) by {
                if i + 1 < pos {
                    assert(t[i] == texts(old_sorted)[i]);
                    assert(t[i + 1] == texts(old_sorted)[i + 1]);
                } else if i + 1 == pos {
                } else if i == pos {
                } else {
                    assert(t[i] == texts(old_sorted)[i - 1]);
                    assert(t[i + 1] == texts(old_sorted)[i]);
                }
            }
        }
    }
    sorted
}

/// How one read from the port went.
pub enum ReadOutcome {
    /// These bytes arrived; there may be none.
    Received(Vec<u8>),
    /// Nothing arrived before the read timed out.
    TimedOut,
    /// The read failed for another reason; the text says why.
    Failed(String),
}

/// The events reported after one read, and whether the reader stops then.
pub open spec fn step_events(outcome: ReadOutcome) -> (Seq<SerialEvent>, bool) {
    match outcome {
        ReadOutcome::Received(bytes) => if bytes@.len() == 0 {
            (seq![], false)
        } else {
            (seq![SerialEvent::Data(bytes)], false)
        },
        ReadOutcome::TimedOut => (seq![], false),
        ReadOutcome::Failed(message) => (
            seq![SerialEvent::Error(message), SerialEvent::Closed],
            true,
        ),
    }
}

/// The events a reader reports, in order, over a run of reads whose outcomes
/// are `outcomes`: it stops reading after the first step that stops it.
pub open spec fn reader_run(outcomes: Seq<ReadOutcome>) -> Seq<SerialEvent>
    decreases outcomes.len(),
{
    if outcomes.len() == 0 {
        seq![]
    } else {
        let (events, stop) = step_events(outcomes[0]);
        if stop {
            events
        } else {
            events + reader_run(outcomes.drop_first())
        }
    }
}

/// Over any run of reads, the end of data is reported at most once, as the
/// last event, and right after the error that caused it; every other event
/// is data or an error.
pub proof fn law_reader_run_closes_last(outcomes: Seq<ReadOutcome>)
    ensures
        forall|i: int|
            0 <= i < reader_run(outcomes).len() && #[trigger] reader_run(outcomes)[i]
                is Closed ==> i == reader_run(outcomes).len() - 1 && i >= 1 && reader_run(
                outcomes,
            )[i - 1] is Error,
    decreases outcomes.len(),
{
    if outcomes.len() > 0 {
        let (events, stop) = step_events(outcomes[0]);
        if !stop {
            law_reader_run_closes_last(outcomes.drop_first());
            let rest = reader_run(outcomes.drop_first());
            assert forall|i: int|
                0 <= i < reader_run(outcomes).len() && #[trigger] reader_run(outcomes)[i]
                    is Closed implies i == reader_run(outcomes).len() - 1 && i >= 1 && reader_run(
                outcomes,
            )[i - 1] is Error by {
                assert(reader_run(outcomes) == events + rest);
                if i >= events.len() {
                    assert(reader_run(outcomes)[i] == rest[i - events.len()]);
                    if i - events.len() >= 1 {
                        assert(reader_run(outcomes)[i - 1] == rest[i - 1 - events.len()]);
                    }
                }
            }
        }
    }
}

/// What the reader of a port does after one read: the events it reports, in
/// order, and whether it stops. Bytes are reported as they come, an empty read
/// or a timeout reports nothing, and a failure is reported as an error followed
/// by the end of data, after which the reader stops.
pub fn reader_step(outcome: ReadOutcome) -> (step: (Vec<SerialEvent>, bool))
    ensures
        (step.0@, step.1) == step_events(outcome),
        match outcome {
            ReadOutcome::Received(bytes) => !step.1 && if bytes@.len() == 0 {
                step.0@.len() == 0
            } else {
                step.0@ == seq![SerialEvent::Data(bytes)]
            },
            ReadOutcome::TimedOut => !step.1 && step.0@.len() == 0,
            ReadOutcome::Failed(message) => step.1 && step.0@ == seq![
                SerialEvent::Error(message),
                SerialEvent::Closed,
            ],
        },
{
    let mut events: Vec<SerialEvent> = Vec::new();
    match outcome {
        ReadOutcome::Received(bytes) => {
            if bytes.len() > 0 {
                events.push(SerialEvent::Data(bytes));
                assert(events@ =~= seq![SerialEvent::Data(bytes)]);
            } else {
                assert(events@ =~= Seq::<SerialEvent>::empty());
            }
            (events, false)
        },
        ReadOutcome::TimedOut => {
            assert(events@ =~= Seq::<SerialEvent>::empty());
            (events, false)
        },
        ReadOutcome::Failed(message) => {
            events.push(SerialEvent::Error(message));
            events.push(SerialEvent::Closed);
            assert(events@ =~= seq![SerialEvent::Error(message), SerialEvent::Closed]);
            (events, true)
        },
    }
}

/// The error shown when a port cannot be opened.
pub fn open_failure_message(port: &str, detail: &str) -> (message: String)
    ensures
        message@ == "Failed to open "@ + port@ + ": "@ + detail@,
{
    let mut message = String::from_str("Failed to open ");
    message.append(port);
    message.append(": ");
    message.append(detail);
    message
}

/// The error shown when an opened port cannot be set up for writing.
pub fn prepare_failure_message(port: &str, detail: &str) -> (message: String)
    ensures
        message@ == "Failed to prepare "@ + port@ + " for writing: "@ + detail@,
{
    let mut message = String::from_str("Failed to prepare ");
    message.append(port);
    message.append(" for writing: ");
    message.append(detail);
    message
}

/// The error shown when sending fails.
pub fn write_failure_message(detail: &str) -> (message: String)
    ensures
        message@ == "Write failed: "@ + detail@,
{
    let mut message = String::from_str("Write failed: ");
    message.append(detail);
    message
}

} // verus!
