use vstd::prelude::*;
use crate::text::{decode_lossy, lossy_utf8, REPLACEMENT_CHARACTER};
use vstd::utf8::{
    decode_utf8, encode_scalar, encode_utf8, encode_utf8_decode_utf8, encode_utf8_valid_utf8,
    valid_utf8,
};

verus! {

/// The byte that ends a line.
pub const NEWLINE: u8 = 10;

/// The byte that a line may carry before its newline (`\r\n` endings).
pub const CARRIAGE_RETURN: u8 = 13;

/// True when no byte of `s` is a newline.
pub open spec fn has_no_newline(s: Seq<u8>) -> bool {
    forall|i: int| 0 <= i < s.len() ==> s[i] != NEWLINE
}

/// Reads `stream` from the start: the complete lines it holds, each without
/// its newline, and the bytes after the last newline.
pub open spec fn split_stream(stream: Seq<u8>) -> (Seq<Seq<u8>>, Seq<u8>)
    decreases stream.len(),
{
    if stream.len() == 0 {
        (seq![], seq![])
    } else {
        let (lines, rest) = split_stream(stream.drop_last());
        if stream.last() == NEWLINE {
            (lines.push(rest), seq![])
        } else {
            (lines, rest.push(stream.last()))
        }
    }
}

/// The newline-terminated lines of `stream`, without their newlines.
pub open spec fn complete_lines(stream: Seq<u8>) -> Seq<Seq<u8>> {
    split_stream(stream).0
}

/// The bytes of `stream` after its last newline (all of it when it has none).
pub open spec fn trailing_bytes(stream: Seq<u8>) -> Seq<u8> {
    split_stream(stream).1
}

/// A line without one carriage return at its end, if it has one there.
pub open spec fn strip_cr(line: Seq<u8>) -> Seq<u8> {
    if line.len() > 0 && line.last() == CARRIAGE_RETURN {
        line.drop_last()
    } else {
        line
    }
}

/// The text of one received line: its bytes without a final `\r`, decoded.
pub open spec fn line_text(line: Seq<u8>) -> Seq<char> {
    lossy_utf8(strip_cr(line))
}

/// The texts of the complete lines of `stream`, in order.
pub open spec fn decoded_lines(stream: Seq<u8>) -> Seq<Seq<char>> {
    complete_lines(stream).map_values(|line: Seq<u8>| line_text(line))
}

/// What `flush` hands out for a buffer holding `partial`.
pub open spec fn flushed_text(partial: Seq<u8>) -> Option<Seq<char>> {
    if partial.len() == 0 {
        None
    } else {
        Some(lossy_utf8(partial))
    }
}

/// The lines of `lines`, each followed by a newline, one after another.
pub open spec fn join_terminated(lines: Seq<Seq<u8>>) -> Seq<u8>
    decreases lines.len(),
{
    if lines.len() == 0 {
        seq![]
    } else {
        join_terminated(lines.drop_last()) + lines.last() + seq![NEWLINE]
    }
}

/// Every complete line of `stream` that is valid UTF-8 (without its final
/// `\r`) has exactly its decoding as its text in `shown`.
pub open spec fn valid_lines_decoded(stream: Seq<u8>, shown: Seq<Seq<char>>) -> bool {
    forall|k: int|
        0 <= k < complete_lines(stream).len() && k < shown.len() && valid_utf8(
            strip_cr(#[trigger] complete_lines(stream)[k]),
        ) ==> shown[k] == decode_utf8(strip_cr(complete_lines(stream)[k]))
}

/// Every complete line of `stream` that is not valid UTF-8 (without its
/// final `\r`) has the replacement character U+FFFD in its text in `shown`.
pub open spec fn invalid_lines_replaced(stream: Seq<u8>, shown: Seq<Seq<char>>) -> bool {
    forall|k: int|
        0 <= k < complete_lines(stream).len() && k < shown.len() && !valid_utf8(
            strip_cr(#[trigger] complete_lines(stream)[k]),
        ) ==> shown[k].contains(REPLACEMENT_CHARACTER)
}

/// The texts of a vector of strings.
pub open spec fn texts(strings: Seq<String>) -> Seq<Seq<char>> {
    strings.map_values(|s: String| s@)
}

/// Turns a stream of bytes, received in chunks of any size, into lines.
pub struct LineAssembler {
    partial: Vec<u8>,
}

impl View for LineAssembler {
    /// The bytes received since the last complete line.
    type V = Seq<u8>;

    closed spec fn view(&self) -> Seq<u8> {
        self.partial@
    }
}

impl LineAssembler {
    #[verifier::type_invariant]
    spec fn no_newline_buffered(self) -> bool {
        has_no_newline(self.partial@)
    }

    /// Gives the caller's proofs that nothing buffered is a newline, as holds of
    /// every assembler; it does nothing at run time.
    pub fn lemma_buffer_newline_free(&self)
        ensures
            has_no_newline(self@),
    {
        proof {
            use_type_invariant(self);
        }
    }

    /// An assembler with nothing buffered.
    pub fn new() -> (assembler: Self)
        ensures
            assembler@ == Seq::<u8>::empty(),
    {
        LineAssembler { partial: Vec::new() }
    }

    /// Appends `bytes` to what is buffered and returns the text of every line
    /// that is now complete, in order; a `\r` before the newline is dropped and
    /// ill-formed UTF-8 is replaced. What follows the last newline stays buffered.
    pub fn push(&mut self, bytes: &[u8]) -> (lines: Vec<String>)
        ensures
            texts(lines@) == decoded_lines(old(self)@ + bytes@),
            final(self)@ == trailing_bytes(old(self)@ + bytes@),
            has_no_newline(final(self)@),
            valid_lines_decoded(old(self)@ + bytes@, texts(lines@)),
            invalid_lines_replaced(old(self)@ + bytes@, texts(lines@)),
    {
        proof {
            use_type_invariant(&*self);
            lemma_newline_free_split(self@);
        }
        let ghost start = self@;
        let mut partial: Vec<u8> = Vec::new();
        std::mem::swap(&mut partial, &mut self.partial);
        let mut lines: Vec<String> = Vec::new();
        assert(start + bytes@.take(0) == start);
        for i in 0..bytes.len()
            invariant
                texts(lines@) == decoded_lines(start + bytes@.take(i as int)),
                partial@ == trailing_bytes(start + bytes@.take(i as int)),
                has_no_newline(partial@),
                valid_lines_decoded(start + bytes@.take(i as int), texts(lines@)),
                invalid_lines_replaced(start + bytes@.take(i as int), texts(lines@)),
        {
            let ghost before = start + bytes@.take(i as int);
            let ghost after = start + bytes@.take(i + 1);
            assert(after.drop_last() == before);
            assert(after.last() == bytes@[i as int]);
            let b = bytes[i];
            if b == NEWLINE {
                let mut line: Vec<u8> = Vec::new();
                std::mem::swap(&mut line, &mut partial);
                let n = line.len();
                if n > 0 && line[n - 1] == CARRIAGE_RETURN {
                    line.pop();
                }
                assert(line@ == strip_cr(trailing_bytes(before)));
                let text = decode_lossy(line.as_slice());
                let ghost old_lines = lines@;
                lines.push(text);
                assert(texts(lines@) == texts(old_lines).push(text@));
                assert(complete_lines(after) == complete_lines(before).push(trailing_bytes(before)));
                assert(decoded_lines(after) == decoded_lines(before).push(line_text(trailing_bytes(before))));
            } else {
                partial.push(b);
            }
        }
        assert(start + bytes@.take(bytes@.len() as int) == start + bytes@);
        self.partial = partial;
        lines
    }

    /// Hands out what is buffered, decoded, and empties the buffer; `None`
    /// when nothing is buffered.
    pub fn flush(&mut self) -> (line: Option<String>)
        ensures
            line matches Some(text) ==> flushed_text(old(self)@) == Some(text@),
            line is None ==> flushed_text(old(self)@) is None,
            line matches Some(text) ==> (valid_utf8(old(self)@) ==> text@ == decode_utf8(
                old(self)@,
            )),
            line matches Some(text) ==> (!valid_utf8(old(self)@) ==> text@.contains(
                REPLACEMENT_CHARACTER,
            )),
            final(self)@ == Seq::<u8>::empty(),
            has_no_newline(final(self)@),
    {
        if self.partial.len() == 0 {
            return None;
        }
        let mut remaining: Vec<u8> = Vec::new();
        std::mem::swap(&mut remaining, &mut self.partial);
        Some(decode_lossy(remaining.as_slice()))
    }
}

/// Bytes without a newline complete no line: all of them stay buffered.
pub proof fn lemma_newline_free_split(s: Seq<u8>)
    requires
        has_no_newline(s),
    ensures
        split_stream(s) == (Seq::<Seq<u8>>::empty(), s),
        decoded_lines(s) == Seq::<Seq<char>>::empty(),
        trailing_bytes(s) == s,
    decreases s.len(),
{
    if s.len() > 0 {
        lemma_newline_free_split(s.drop_last());
        assert(s.drop_last().push(s.last()) == s);
    }
    assert(decoded_lines(s) =~= Seq::<Seq<char>>::empty());
}

/// What follows the last newline holds no newline.
proof fn lemma_trailing_newline_free(s: Seq<u8>)
    ensures
        has_no_newline(trailing_bytes(s)),
    decreases s.len(),
{
    if s.len() > 0 {
        lemma_trailing_newline_free(s.drop_last());
    }
}

/// Reading `s + t` reads `s`, then what `s` left unfinished continued by `t`.
proof fn lemma_split_append(s: Seq<u8>, t: Seq<u8>)
    ensures
        complete_lines(s + t) == complete_lines(s) + complete_lines(trailing_bytes(s) + t),
        trailing_bytes(s + t) == trailing_bytes(trailing_bytes(s) + t),
    decreases t.len(),
{
    let r = trailing_bytes(s);
    if t.len() == 0 {
        assert(s + t == s);
        assert(r + t == r);
        lemma_trailing_newline_free(s);
        lemma_newline_free_split(r);
        assert(complete_lines(s) + Seq::<Seq<u8>>::empty() == complete_lines(s));
    } else {
        lemma_split_append(s, t.drop_last());
        assert((s + t).drop_last() == s + t.drop_last());
        assert((r + t).drop_last() == r + t.drop_last());
        assert((s + t).last() == t.last());
        assert((r + t).last() == t.last());
        let prefix = complete_lines(s);
        let tail = complete_lines(r + t.drop_last());
        if t.last() == NEWLINE {
            assert(prefix + tail.push(trailing_bytes(r + t.drop_last())) == (prefix + tail).push(
                trailing_bytes(r + t.drop_last()),
            ));
        }
    }
}

/// Chunking does not matter: pushing `a` and then `b` into an assembler that
/// holds `partial` yields the lines that pushing `a + b` at once yields, in the
/// same order, and leaves the same bytes buffered.
pub proof fn law_push_in_chunks(partial: Seq<u8>, a: Seq<u8>, b: Seq<u8>)
    ensures
        decoded_lines(partial + a) + decoded_lines(trailing_bytes(partial + a) + b)
            == decoded_lines(partial + (a + b)),
        trailing_bytes(trailing_bytes(partial + a) + b) == trailing_bytes(partial + (a + b)),
{
    assert(partial + (a + b) == (partial + a) + b);
    lemma_split_append(partial + a, b);
    let f = |line: Seq<u8>| line_text(line);
    let x = complete_lines(partial + a);
    let y = complete_lines(trailing_bytes(partial + a) + b);
    assert((x + y).map_values(f) =~= x.map_values(f) + y.map_values(f));
}

/// Nothing is lost or added: a stream is its complete lines, each followed by
/// a newline, then its trailing bytes; neither holds a newline of its own.
pub proof fn law_stream_reassembles(stream: Seq<u8>)
    ensures
        stream == join_terminated(complete_lines(stream)) + trailing_bytes(stream),
        forall|i: int|
            0 <= i < complete_lines(stream).len() ==> has_no_newline(
                #[trigger] complete_lines(stream)[i],
            ),
        has_no_newline(trailing_bytes(stream)),
    decreases stream.len(),
{
    lemma_trailing_newline_free(stream);
    if stream.len() > 0 {
        let prev = stream.drop_last();
        law_stream_reassembles(prev);
        let lines = complete_lines(prev);
        let rest = trailing_bytes(prev);
        assert(prev.push(stream.last()) == stream);
        if stream.last() == NEWLINE {
            assert(lines.push(rest).drop_last() == lines);
            assert(join_terminated(lines.push(rest)) == join_terminated(lines) + rest + seq![NEWLINE]);
            assert(stream =~= join_terminated(lines.push(rest)) + Seq::<u8>::empty());
        } else {
            assert(stream =~= join_terminated(lines) + rest.push(stream.last()));
        }
    }
}

/// Once flushed, an assembler has nothing more to hand out.
pub proof fn law_flush_after_flush()
    ensures
        flushed_text(Seq::<u8>::empty()) is None,
{
}

/// Reads `text` from the start: its `\n`-terminated lines, without the `\n`,
/// and the characters after the last `\n`.
pub open spec fn split_text(text: Seq<char>) -> (Seq<Seq<char>>, Seq<char>)
    decreases text.len(),
{
    if text.len() == 0 {
        (seq![], seq![])
    } else {
        let (lines, rest) = split_text(text.drop_last());
        if text.last() == '\n' {
            (lines.push(rest), seq![])
        } else {
            (lines, rest.push(text.last()))
        }
    }
}

/// Lines of text, each followed by `\n`, one after another.
pub open spec fn join_text_lines(lines: Seq<Seq<char>>) -> Seq<char>
    decreases lines.len(),
{
    if lines.len() == 0 {
        seq![]
    } else {
        join_text_lines(lines.drop_last()) + lines.last() + seq!['\n']
    }
}

/// True when `text` holds no carriage return.
pub open spec fn has_no_cr(text: Seq<char>) -> bool {
    forall|i: int| 0 <= i < text.len() ==> text[i] != '\r'
}

/// Encoding is done character by character.
proof fn lemma_encode_append(a: Seq<char>, b: Seq<char>)
    ensures
        encode_utf8(a + b) == encode_utf8(a) + encode_utf8(b),
    decreases a.len(),
{
    if a.len() == 0 {
        assert(a + b =~= b);
    } else {
        lemma_encode_append(a.drop_first(), b);
        assert((a + b).drop_first() =~= a.drop_first() + b);
        assert(encode_utf8(a + b) =~= encode_utf8(a) + encode_utf8(b));
    }
}

/// The bytes of one character: a newline is the newline byte, any other
/// character has no newline byte, and only a carriage return ends in that byte.
proof fn lemma_encode_char(c: char)
    ensures
        encode_utf8(seq![c]) == encode_scalar(c as u32),
        encode_scalar(c as u32).len() > 0,
        c == '\n' ==> encode_scalar(c as u32) == seq![NEWLINE],
        c != '\n' ==> has_no_newline(encode_scalar(c as u32)),
        c != '\r' ==> encode_scalar(c as u32).last() != CARRIAGE_RETURN,
{
    assert(seq![c].drop_first() =~= Seq::<char>::empty());
    assert(seq![c][0] == c);
    assert(encode_utf8(seq![c].drop_first()) == Seq::<u8>::empty());
    assert(encode_scalar(c as u32) + Seq::<u8>::empty() =~= encode_scalar(c as u32));
    let v = c as u32;
    vstd::utf8::char_is_scalar(c);
    if v <= 0x7f {
        assert((v & 0x7f) as u8 == v) by (bit_vector)
            requires
                v <= 0x7f,
        ;
        if c == '\n' {
            assert(v == 10);
        }
        if c != '\n' {
            if v == 10 {
                vstd::utf8::char_u32_cast(c, v);
                assert(c == (10u32 as char));
            }
        }
        if c != '\r' {
            if v == 13 {
                vstd::utf8::char_u32_cast(c, v);
                assert(c == (13u32 as char));
            }
        }
    } else {
        assert(0x80u8 | ((v & 0x3F) as u8) >= 0x80) by (bit_vector);
        assert(0x80u8 | (((v >> 6) & 0x3F) as u8) >= 0x80) by (bit_vector);
        assert(0x80u8 | (((v >> 12) & 0x3F) as u8) >= 0x80) by (bit_vector);
        assert(0xC0u8 | (((v >> 6) & 0x1F) as u8) >= 0x80) by (bit_vector);
        assert(0xE0u8 | (((v >> 12) & 0x0F) as u8) >= 0x80) by (bit_vector);
        assert(0xF0u8 | (((v >> 18) & 0x7) as u8) >= 0x80) by (bit_vector);
    }
}

/// The encoding of a text without a given character's byte has no newline.
proof fn lemma_encode_newline_free(text: Seq<char>)
    requires
        forall|i: int| 0 <= i < text.len() ==> text[i] != '\n',
    ensures
        has_no_newline(encode_utf8(text)),
    decreases text.len(),
{
    if text.len() > 0 {
        lemma_encode_newline_free(text.drop_first());
        lemma_encode_char(text[0]);
        let head = encode_scalar(text[0] as u32);
        let tail = encode_utf8(text.drop_first());
        assert forall|i: int| 0 <= i < encode_utf8(text).len() implies encode_utf8(text)[i]
            != NEWLINE by {
            if i < head.len() {
                assert(encode_utf8(text)[i] == head[i]);
            } else {
                assert(encode_utf8(text)[i] == tail[i - head.len()]);
            }
        }
    }
}

/// Splitting the bytes of a text is splitting the text, then encoding.
proof fn lemma_split_encoded(text: Seq<char>)
    ensures
        complete_lines(encode_utf8(text)) == split_text(text).0.map_values(
            |line: Seq<char>| encode_utf8(line),
        ),
        trailing_bytes(encode_utf8(text)) == encode_utf8(split_text(text).1),
        forall|i: int|
            0 <= i < split_text(text).1.len() ==> split_text(text).1[i] != '\n',
    decreases text.len(),
{
    let f = |line: Seq<char>| encode_utf8(line);
    if text.len() == 0 {
        assert(split_text(text).0.map_values(f) =~= Seq::<Seq<u8>>::empty());
    } else {
        let prev = text.drop_last();
        let c = text.last();
        lemma_split_encoded(prev);
        assert(prev + seq![c] =~= text);
        lemma_encode_append(prev, seq![c]);
        lemma_encode_char(c);
        let e = encode_utf8(prev);
        let ec = encode_utf8(seq![c]);
        lemma_split_append(e, ec);
        let (lines, rest) = split_text(prev);
        lemma_encode_newline_free(rest);
        let t = trailing_bytes(e);
        if c == '\n' {
            assert((t + ec).drop_last() =~= t);
            lemma_newline_free_split(t);
            assert(split_stream(t + ec) == (Seq::<Seq<u8>>::empty().push(t), Seq::<u8>::empty()));
            assert(lines.push(rest).map_values(f) =~= lines.map_values(f).push(encode_utf8(rest)));
            assert(complete_lines(e) + Seq::<Seq<u8>>::empty().push(t) =~= complete_lines(e).push(
                t,
            ));
            assert(encode_utf8(Seq::<char>::empty()) == Seq::<u8>::empty());
        } else {
            assert forall|i: int| 0 <= i < (t + ec).len() implies (t + ec)[i] != NEWLINE by {
                if i < t.len() {
                    assert((t + ec)[i] == t[i]);
                } else {
                    assert((t + ec)[i] == ec[i - t.len()]);
                }
            }
            lemma_newline_free_split(t + ec);
            assert(complete_lines(e) + Seq::<Seq<u8>>::empty() =~= complete_lines(e));
            lemma_encode_append(rest, seq![c]);
            assert(rest + seq![c] =~= rest.push(c));
        }
    }
}

/// A text is its lines, each followed by `\n`, then what follows the last `\n`;
/// with the text, they hold no carriage return.
proof fn lemma_text_reassembles(text: Seq<char>)
    ensures
        text == join_text_lines(split_text(text).0) + split_text(text).1,
        has_no_cr(text) ==> has_no_cr(split_text(text).1) && forall|i: int|
            0 <= i < split_text(text).0.len() ==> has_no_cr(#[trigger] split_text(text).0[i]),
    decreases text.len(),
{
    if text.len() > 0 {
        let prev = text.drop_last();
        lemma_text_reassembles(prev);
        let (lines, rest) = split_text(prev);
        assert(prev.push(text.last()) == text);
        if text.last() == '\n' {
            assert(lines.push(rest).drop_last() == lines);
            assert(text =~= join_text_lines(lines.push(rest)) + Seq::<char>::empty());
        } else {
            assert(text =~= join_text_lines(lines) + rest.push(text.last()));
        }
        if has_no_cr(text) {
            assert(has_no_cr(prev));
        }
    }
}

/// Nothing received is lost, reordered or duplicated: for a text without
/// carriage returns, pushed as UTF-8 into an empty assembler and then flushed,
/// the lines handed out, each followed by `\n`, and then what the flush hands
/// out (nothing if `None`) are the text itself. `shown` and `flushed` are what
/// `push` and `flush` promise to return.
pub proof fn law_text_round_trip(text: Seq<char>, shown: Seq<Seq<char>>, flushed: Option<Seq<char>>)
    requires
        has_no_cr(text),
        shown == decoded_lines(encode_utf8(text)),
        valid_lines_decoded(encode_utf8(text), shown),
        flushed is None ==> flushed_text(trailing_bytes(encode_utf8(text))) is None,
        flushed matches Some(rest) ==> flushed_text(trailing_bytes(encode_utf8(text))) == Some(
            rest,
        ) && (valid_utf8(trailing_bytes(encode_utf8(text))) ==> rest == decode_utf8(
            trailing_bytes(encode_utf8(text)),
        )),
    ensures
        join_text_lines(shown) + match flushed {
            Some(rest) => rest,
            None => Seq::<char>::empty(),
        } == text,
{
    broadcast use {encode_utf8_valid_utf8, encode_utf8_decode_utf8};

    lemma_split_encoded(text);
    lemma_text_reassembles(text);
    let (lines, rest) = split_text(text);
    let bytes = encode_utf8(text);
    assert(shown.len() == lines.len());
    assert forall|k: int| 0 <= k < shown.len() implies shown[k] == lines[k] by {
        let line = lines[k];
        assert(complete_lines(bytes)[k] == encode_utf8(line));
        if line.len() > 0 {
            assert(line =~= line.drop_last() + seq![line.last()]);
            lemma_encode_append(line.drop_last(), seq![line.last()]);
            lemma_encode_char(line.last());
            assert(line.last() == line[line.len() - 1]);
            assert(encode_utf8(line).last() == encode_scalar(line.last() as u32).last());
        }
        assert(strip_cr(encode_utf8(line)) == encode_utf8(line));
    }
    assert(shown =~= lines);
    match flushed {
        Some(r) => {
            if rest.len() == 0 {
                assert(encode_utf8(rest) == Seq::<u8>::empty());
            }
            assert(r == rest);
        },
        None => {
            if rest.len() > 0 {
                lemma_encode_char(rest[0]);
                assert(encode_utf8(rest).len() > 0);
            }
            assert(rest =~= Seq::<char>::empty());
            assert(text =~= join_text_lines(lines) + Seq::<char>::empty());
        },
    }
}

/// A final carriage return is always dropped, whatever the line's length, and
/// a line that does not end in one is kept whole.
pub proof fn law_strip_cr_drops_exactly_one_final_cr(line: Seq<u8>)
    ensures
        strip_cr(line.push(CARRIAGE_RETURN)) == line,
        (line.len() == 0 || line.last() != CARRIAGE_RETURN) ==> strip_cr(line) == line,
{
    assert(line.push(CARRIAGE_RETURN).drop_last() =~= line);
}

/// How many newline bytes `s` holds.
pub open spec fn newline_count(s: Seq<u8>) -> nat
    decreases s.len(),
{
    if s.len() == 0 {
        0
    } else {
        newline_count(s.drop_last()) + if s.last() == NEWLINE {
            1nat
        } else {
            0nat
        }
    }
}

/// A stream has one complete line for each newline byte in it, and each of
/// them is handed out: pushing bytes yields as many lines as the buffer plus
/// the bytes hold newlines.
pub proof fn law_one_line_per_newline(stream: Seq<u8>)
    ensures
        complete_lines(stream).len() == newline_count(stream),
        decoded_lines(stream).len() == newline_count(stream),
    decreases stream.len(),
{
    if stream.len() > 0 {
        law_one_line_per_newline(stream.drop_last());
    }
}

/// A flush hands out something exactly when something is buffered, and then
/// it is the decoding of all the buffered bytes.
pub proof fn law_flush_hands_out_the_buffer(partial: Seq<u8>)
    ensures
        flushed_text(partial) is None <==> partial.len() == 0,
        partial.len() > 0 ==> flushed_text(partial) == Some(lossy_utf8(partial)),
{
}

/// A single line ended by `\r\n` is handed out as the decoding of its bytes
/// before the `\r`, whatever its length.
pub proof fn law_crlf_line_is_decoded_without_cr(line: Seq<u8>)
    requires
        has_no_newline(line),
    ensures
        decoded_lines(line + seq![CARRIAGE_RETURN, NEWLINE]) == seq![lossy_utf8(line)],
        trailing_bytes(line + seq![CARRIAGE_RETURN, NEWLINE]) == Seq::<u8>::empty(),
{
    let with_cr = line.push(CARRIAGE_RETURN);
    let all = line + seq![CARRIAGE_RETURN, NEWLINE];
    assert(all =~= with_cr.push(NEWLINE));
    assert(all.drop_last() == with_cr);
    assert forall|i: int| 0 <= i < with_cr.len() implies with_cr[i] != NEWLINE by {
        if i < line.len() {
            assert(with_cr[i] == line[i]);
        }
    }
    lemma_newline_free_split(with_cr);
    law_strip_cr_drops_exactly_one_final_cr(line);
    assert(complete_lines(all) =~= seq![with_cr]);
    assert(decoded_lines(all) =~= seq![lossy_utf8(line)]);
}

} // verus!
