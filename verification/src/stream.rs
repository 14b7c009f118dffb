//! From the bytes of a server-sent event stream to its data lines.

use vstd::prelude::*;
use vstd::utf8::*;

use crate::text;

verus! {

// ---- The longest valid prefix of a byte sequence ----

/// How many bytes at the front form complete characters.
pub open spec fn valid_len(b: Seq<u8>) -> int
    decreases b.len(),
{
    if b.len() > 0 && valid_first_scalar(b) {
        length_of_first_scalar(b) + valid_len(pop_first_scalar(b))
    } else {
        0
    }
}

pub proof fn lemma_valid_len(b: Seq<u8>)
    ensures
        0 <= valid_len(b) <= b.len(),
        valid_utf8(b.take(valid_len(b))),
        forall|m: int| valid_len(b) < m <= b.len() ==> !valid_utf8(#[trigger] b.take(m)),
    decreases b.len(),
{
    let n = valid_len(b);
    if b.len() > 0 && valid_first_scalar(b) {
        let k = length_of_first_scalar(b);
        let rest = pop_first_scalar(b);
        lemma_valid_len(rest);
        assert(b.take(n).skip(k) =~= rest.take(n - k));
        assert(pop_first_scalar(b.take(n)) =~= rest.take(n - k));
        assert forall|m: int| n < m <= b.len() implies !valid_utf8(#[trigger] b.take(m)) by {
            if valid_utf8(b.take(m)) {
                assert(pop_first_scalar(b.take(m)) =~= rest.take(m - k));
            }
        }
    } else {
        assert forall|m: int| n < m <= b.len() implies !valid_utf8(#[trigger] b.take(m)) by {
            if valid_utf8(b.take(m)) {
                assert(valid_first_scalar(b.take(m)));
                assert(valid_first_scalar(b));
            }
        }
    }
}

/// The longest valid prefix is the only one that no longer valid prefix exceeds.
pub proof fn lemma_valid_len_unique(b: Seq<u8>, n: int)
    requires
        0 <= n <= b.len(),
        valid_utf8(b.take(n)),
        forall|m: int| n < m <= b.len() ==> !valid_utf8(#[trigger] b.take(m)),
    ensures
        n == valid_len(b),
{
    lemma_valid_len(b);
}

/// `std::str::from_utf8`: the length of the text, or `Utf8Error::valid_up_to`. Either way it is
/// the largest index up to which the bytes are valid.
#[verifier::external_body]
fn valid_up_to(bytes: &Vec<u8>) -> (n: usize)
    ensures
        n <= bytes@.len(),
        valid_utf8(bytes@.take(n as int)),
        forall|m: int| n < m <= bytes@.len() ==> !valid_utf8(#[trigger] bytes@.take(m)),
{
    match std::str::from_utf8(bytes) {
        Ok(s) => s.len(),
        Err(e) => e.valid_up_to(),
    }
}

/// `String::from_utf8`: the characters that the bytes encode, if they are valid.
#[verifier::external_body]
fn decoded(bytes: Vec<u8>) -> (r: Option<String>)
    ensures
        match r {
            Some(s) => valid_utf8(bytes@) && s@ == decode_utf8(bytes@),
            None => !valid_utf8(bytes@),
        },
{
    String::from_utf8(bytes).ok()
}

// ---- Frames and their data ----

/// What ends a frame: an empty line.
pub open spec fn frame_end() -> Seq<char> {
    seq!['\n', '\n']
}

/// The finished frames of a text, and what follows the last of them.
pub open spec fn frames(s: Seq<char>) -> (Seq<Seq<char>>, Seq<char>)
    decreases s.len(),
{
    match text::found_from(s, frame_end(), 0) {
        Some(i) => if 0 <= i && i + 2 <= s.len() {
            let (more, rest) = frames(s.skip(i + 2));
            (seq![s.take(i)] + more, rest)
        } else {
            (Seq::empty(), s)
        },
        None => (Seq::empty(), s),
    }
}

/// What the data lines among the given lines carry.
pub open spec fn data_of_lines(lines: Seq<Seq<char>>) -> Seq<Seq<char>>
    decreases lines.len(),
{
    if lines.len() == 0 {
        Seq::empty()
    } else {
        let before = data_of_lines(lines.drop_last());
        match text::after_prefix(lines.last(), "data: "@) {
            Some(d) => before.push(d),
            None => before,
        }
    }
}

/// What the data lines of the given frames carry.
pub open spec fn data_of_frames(f: Seq<Seq<char>>) -> Seq<Seq<char>>
    decreases f.len(),
{
    if f.len() == 0 {
        Seq::empty()
    } else {
        data_of_frames(f.drop_last()) + data_of_lines(text::lines_of(f.last()))
    }
}

/// The data before the end mark.
pub open spec fn before_done(data: Seq<Seq<char>>) -> Seq<Seq<char>>
    decreases data.len(),
{
    if data.len() == 0 {
        Seq::empty()
    } else if has_done(data.drop_last()) || data.last() == "[DONE]"@ {
        before_done(data.drop_last())
    } else {
        before_done(data.drop_last()).push(data.last())
    }
}

/// Whether the end mark is among the data.
pub open spec fn has_done(data: Seq<Seq<char>>) -> bool {
    exists|i: int| 0 <= i < data.len() && #[trigger] data[i] == "[DONE]"@
}

/// What a decoder holds between two chunks: bytes of an unfinished character and the text of an
/// unfinished frame.
pub struct DecoderModel {
    pub pending: Seq<u8>,
    pub text: Seq<char>,
}

impl DecoderModel {
    /// The text that stands before the decoder once a chunk has come in.
    pub open spec fn text_with(self, chunk: Seq<u8>) -> Seq<char> {
        let bytes = self.pending + chunk;
        self.text + decode_utf8(bytes.take(valid_len(bytes)))
    }

    /// What the decoder holds after a chunk.
    pub open spec fn after(self, chunk: Seq<u8>) -> DecoderModel {
        let bytes = self.pending + chunk;
        DecoderModel {
            pending: bytes.skip(valid_len(bytes)),
            text: frames(self.text_with(chunk)).1,
        }
    }

    /// The data that a chunk completes.
    pub open spec fn data(self, chunk: Seq<u8>) -> Seq<Seq<char>> {
        data_of_frames(frames(self.text_with(chunk)).0)
    }
}

/// Takes the bytes of an event stream chunk by chunk; a character or a frame may lie across
/// chunks.
pub struct StreamDecoder {
    pub pending: Vec<u8>,
    pub text: String,
}

impl View for StreamDecoder {
    type V = DecoderModel;

    open spec fn view(&self) -> DecoderModel {
        DecoderModel { pending: self.pending@, text: self.text@ }
    }
}

fn byte_range(v: &Vec<u8>, from: usize, to: usize) -> (r: Vec<u8>)
    requires
        from <= to <= v@.len(),
    ensures
        r@ == v@.subrange(from as int, to as int),
{
    let mut r: Vec<u8> = Vec::new();
    let mut i: usize = from;
    while i < to
        invariant
            from <= i <= to <= v@.len(),
            r@ == v@.subrange(from as int, i as int),
        decreases to - i,
    {
        r.push(v[i]);
        i = i + 1;
        assert(v@.subrange(from as int, i as int) == v@.subrange(from as int, i - 1).push(
            v@[i - 1],
        ));
    }
    r
}

/// Appends what the data lines of a frame carry; says whether the end mark was among them.
fn take_data(out: &mut Vec<String>, done: bool, frame: &str, Ghost(seen): Ghost<Seq<Seq<char>>>) -> (r:
    bool)
    requires
        text::views(old(out)@) == before_done(seen),
        done == has_done(seen),
    ensures
        text::views(final(out)@) == before_done(seen + data_of_lines(text::lines_of(frame@))),
        r == has_done(seen + data_of_lines(text::lines_of(frame@))),
{
    let lines = text::lines(frame);
    let ghost all = text::lines_of(frame@);
    let mut done: bool = done;
    let mut i: usize = 0;
    assert(seen + data_of_lines(all.take(0)) =~= seen);
    while i < lines.len()
        invariant
            i <= lines@.len(),
            text::views(lines@) == all,
            text::views(out@) == before_done(seen + data_of_lines(all.take(i as int))),
            done == has_done(seen + data_of_lines(all.take(i as int))),
        decreases lines@.len() - i,
    {
        let ghost before = seen + data_of_lines(all.take(i as int));
        proof {
            let now = all.take(i + 1);
            assert(now.drop_last() == all.take(i as int));
            assert(now.last() == lines@[i as int]@);
        }
        match text::strip_prefix(lines[i].as_str(), "data: ") {
            Some(d) => {
                let end = text::same(d.as_str(), "[DONE]");
                proof {
                    let now = before.push(d@);
                    assert(seen + data_of_lines(all.take(i + 1)) =~= now);
                    assert(now.drop_last() =~= before);
                    assert(now.last() == d@);
                    if has_done(before) {
                        let k = choose|k: int|
                            0 <= k < before.len() && #[trigger] before[k] == "[DONE]"@;
                        assert(now[k] == "[DONE]"@);
                    } else if d@ == "[DONE]"@ {
                        assert(now[before.len() as int] == "[DONE]"@);
                    } else {
                        assert forall|k: int| 0 <= k < now.len() implies #[trigger] now[k]
                            != "[DONE]"@ by {
                            if k < before.len() {
                                assert(before[k] == now[k]);
                            }
                        }
                    }
                }
                if end {
                    done = true;
                } else if !done {
                    proof {
                        text::lemma_views_push(out@, d);
                    }
                    out.push(d);
                }
            },
            None => {},
        }
        i = i + 1;
    }
    assert(all.take(all.len() as int) == all);
    done
}

impl StreamDecoder {
    pub fn new() -> (d: StreamDecoder)
        ensures
            d@ == (DecoderModel { pending: Seq::empty(), text: Seq::empty() }),
    {
        StreamDecoder { pending: Vec::new(), text: String::new() }
    }

    /// Takes one chunk in: the data that it completes up to the end mark, and whether the end
    /// mark is among it.
    pub fn feed(&mut self, chunk: &Vec<u8>) -> (r: (Vec<String>, bool))
        ensures
            final(self)@ == old(self)@.after(chunk@),
            text::views(r.0@) == before_done(old(self)@.data(chunk@)),
            r.1 == has_done(old(self)@.data(chunk@)),
    {
        let ghost start = self@;
        let ghost bytes = start.pending + chunk@;
        let mut all = byte_range(&self.pending, 0, self.pending.len());
        let mut k: usize = 0;
        assert(all@ =~= start.pending + chunk@.take(0));
        while k < chunk.len()
            invariant
                k <= chunk@.len(),
                all@ == start.pending + chunk@.take(k as int),
            decreases chunk@.len() - k,
        {
            all.push(chunk[k]);
            k = k + 1;
            assert(all@ =~= start.pending + chunk@.take(k as int));
        }
        assert(all@ =~= bytes);
        let n = valid_up_to(&all);
        proof {
            lemma_valid_len_unique(bytes, n as int);
            assert(bytes.subrange(0, n as int) == bytes.take(n as int));
            assert(bytes.subrange(n as int, bytes.len() as int) == bytes.skip(n as int));
        }
        let mut rest = text::copy_text(self.text.as_str());
        match decoded(byte_range(&all, 0, n)) {
            Some(s) => {
                rest.append(s.as_str());
            },
            None => {
                assert(false);
            },
        }
        let ghost whole = start.text_with(chunk@);
        assert(rest@ == whole);
        let mut out: Vec<String> = Vec::new();
        let mut done: bool = false;
        let ghost mut taken: Seq<Seq<char>> = Seq::empty();
        proof {
            reveal_strlit("\n\n");
            assert("\n\n"@ =~= frame_end());
            assert(text::views(out@) =~= before_done(data_of_frames(taken)));
        }
        let mut more: bool = true;
        while more
            invariant
                "\n\n"@ == frame_end(),
                whole == start.text_with(chunk@),
                taken + frames(rest@).0 == frames(whole).0,
                frames(rest@).1 == frames(whole).1,
                !more ==> frames(rest@).0.len() == 0 && frames(rest@).1 == rest@,
                text::views(out@) == before_done(data_of_frames(taken)),
                done == has_done(data_of_frames(taken)),
            decreases rest@.len(), (if more { 1int } else { 0int }),
        {
            match text::find_from(rest.as_str(), "\n\n", 0) {
                Some(i) => {
                    let v = text::chars_of(rest.as_str());
                    let ghost s = rest@;
                    proof {
                        text::lemma_found_from(s, frame_end(), 0);
                    }
                    let frame = text::text_between(&v, 0, i);
                    assert(i + 2 <= v.len());
                    let tail = text::text_between(&v, i + 2, v.len());
                    proof {
                        assert(frame@ == s.take(i as int));
                        assert(tail@ == s.skip(i + 2));
                    }
                    done = take_data(&mut out, done, frame.as_str(), Ghost(data_of_frames(taken)));
                    proof {
                        let ghost next = taken.push(frame@);
                        assert(next.drop_last() == taken);
                        assert(next + frames(tail@).0 =~= taken + (seq![s.take(i as int)] + frames(
                            tail@,
                        ).0));
                        taken = next;
                    }
                    rest = tail;
                },
                None => {
                    more = false;
                },
            }
        }
        assert(taken =~= frames(whole).0);
        self.pending = byte_range(&all, n, all.len());
        self.text = rest;
        (out, done)
    }
}

// ---- Where the chunks are cut does not matter ----

proof fn lemma_valid_len_joins(x: Seq<u8>, y: Seq<u8>)
    ensures
        ({
            let n = valid_len(x);
            let rest = x.skip(n) + y;
            let m = valid_len(rest);
            &&& valid_len(x + y) == n + m
            &&& (x + y).skip(n + m) == rest.skip(m)
            &&& decode_utf8((x + y).take(n + m)) == decode_utf8(x.take(n)) + decode_utf8(
                rest.take(m),
            )
        }),
    decreases x.len(),
{
    let n = valid_len(x);
    let rest = x.skip(n) + y;
    let m = valid_len(rest);
    lemma_valid_len(x);
    lemma_valid_len(rest);
    assert((x + y).skip(n) =~= rest);
    assert((x + y).skip(n + m) =~= rest.skip(m));
    if x.len() > 0 && valid_first_scalar(x) {
        let k = length_of_first_scalar(x);
        let tail = pop_first_scalar(x);
        let tn = valid_len(tail);
        lemma_valid_len(tail);
        lemma_valid_len_joins(tail, y);
        assert(valid_first_scalar(x + y));
        assert(pop_first_scalar(x + y) =~= tail + y);
        assert(tail.skip(tn) =~= x.skip(n));
        let whole = (x + y).take(n + m);
        lemma_valid_len(x + y);
        assert(pop_first_scalar(whole) =~= (tail + y).take(tn + m));
        assert(pop_first_scalar(x.take(n)) =~= tail.take(tn));
        assert(decode_first_scalar(whole) == decode_first_scalar(x.take(n)));
        assert(decode_utf8(whole) == seq![decode_first_scalar(whole) as char] + decode_utf8(
            (tail + y).take(tn + m),
        ));
        assert(decode_utf8(x.take(n)) == seq![decode_first_scalar(x.take(n)) as char] + decode_utf8(
            tail.take(tn),
        ));
        assert(decode_utf8(whole) =~= decode_utf8(x.take(n)) + decode_utf8(rest.take(m)));
    } else {
        assert(x.skip(0) =~= x);
        assert(x.take(0) =~= Seq::<u8>::empty());
        assert(decode_utf8(x.take(0)) =~= Seq::<char>::empty());
        assert(decode_utf8((x + y).take(n + m)) =~= decode_utf8(x.take(n)) + decode_utf8(
            rest.take(m),
        ));
    }
}

proof fn lemma_found_in_front(s: Seq<char>, t: Seq<char>, pattern: Seq<char>, from: int)
    requires
        0 <= from,
        text::found_from(s, pattern, from) is Some,
    ensures
        text::found_from(s + t, pattern, from) == text::found_from(s, pattern, from),
    decreases s.len() + 1 - from,
{
    if from + pattern.len() <= s.len() {
        assert((s + t).subrange(from, from + pattern.len()) =~= s.subrange(
            from,
            from + pattern.len(),
        ));
        if !text::occurs_at(s, pattern, from) {
            lemma_found_in_front(s, t, pattern, from + 1);
        }
    }
}

proof fn lemma_frames_join(s: Seq<char>, t: Seq<char>)
    ensures
        frames(s + t).0 == frames(s).0 + frames(frames(s).1 + t).0,
        frames(s + t).1 == frames(frames(s).1 + t).1,
    decreases s.len(),
{
    match text::found_from(s, frame_end(), 0) {
        Some(i) => {
            text::lemma_found_from(s, frame_end(), 0);
            lemma_found_in_front(s, t, frame_end(), 0);
            lemma_frames_join(s.skip(i + 2), t);
            assert((s + t).take(i) =~= s.take(i));
            assert((s + t).skip(i + 2) =~= s.skip(i + 2) + t);
            assert(frames(s + t).0 =~= frames(s).0 + frames(frames(s).1 + t).0);
        },
        None => {
            assert(frames(s + t).0 =~= frames(s).0 + frames(frames(s).1 + t).0);
        },
    }
}

proof fn lemma_data_join(f: Seq<Seq<char>>, g: Seq<Seq<char>>)
    ensures
        data_of_frames(f + g) == data_of_frames(f) + data_of_frames(g),
    decreases g.len(),
{
    if g.len() == 0 {
        assert(f + g =~= f);
        assert(data_of_frames(f) + data_of_frames(g) =~= data_of_frames(f));
    } else {
        lemma_data_join(f, g.drop_last());
        assert((f + g).drop_last() =~= f + g.drop_last());
        assert((f + g).last() == g.last());
        assert(data_of_frames(f + g) =~= data_of_frames(f) + data_of_frames(g));
    }
}

/// Two chunks give the data that the two together give as one, and leave the decoder in the same
/// state, wherever the bytes are cut.
pub proof fn law_chunks_join(d: DecoderModel, a: Seq<u8>, b: Seq<u8>)
    ensures
        d.after(a).after(b) == d.after(a + b),
        d.data(a) + d.after(a).data(b) == d.data(a + b),
{
    let x = d.pending + a;
    assert(d.pending + (a + b) =~= x + b);
    lemma_valid_len_joins(x, b);
    let n = valid_len(x);
    let rest = x.skip(n) + b;
    let first = decode_utf8(x.take(n));
    let second = decode_utf8(rest.take(valid_len(rest)));
    assert(d.text_with(a + b) =~= d.text_with(a) + second);
    lemma_frames_join(d.text_with(a), second);
    lemma_data_join(frames(d.text_with(a)).0, frames(d.after(a).text_with(b)).0);
}

/// The bytes of a text, taken in from the start, give the data of that text.
pub proof fn law_text_comes_through(s: Seq<char>)
    ensures
        ({
            let d = DecoderModel { pending: Seq::empty(), text: Seq::empty() };
            &&& d.data(encode_utf8(s)) == data_of_frames(frames(s).0)
            &&& d.after(encode_utf8(s)) == (DecoderModel {
                pending: Seq::empty(),
                text: frames(s).1,
            })
        }),
{
    let d = DecoderModel { pending: Seq::empty(), text: Seq::empty() };
    let bytes = encode_utf8(s);
    encode_utf8_valid_utf8(s);
    encode_utf8_decode_utf8(s);
    assert(d.pending + bytes =~= bytes);
    assert(bytes.take(bytes.len() as int) =~= bytes);
    lemma_valid_len_unique(bytes, bytes.len() as int);
    assert(d.text + s =~= s);
    assert(bytes.skip(bytes.len() as int) =~= Seq::<u8>::empty());
}

// ---- Frames, data, and the end ----

/// A frame ends at the first empty line, and the text behind it is read on its own; text without an
/// empty line is kept for later.
pub proof fn law_frames_end_at_empty_lines(frame: Seq<char>, rest: Seq<char>)
    requires
        !text::contains(frame.push('\n'), seq!['\n', '\n']),
    ensures
        frames(frame + seq!['\n', '\n'] + rest).0 == seq![frame] + frames(rest).0,
        frames(frame + seq!['\n', '\n'] + rest).1 == frames(rest).1,
        frames(frame).0.len() == 0,
        frames(frame).1 == frame,
{
    let end = seq!['\n', '\n'];
    let s = frame + end + rest;
    let n = frame.len() as int;
    assert(frame_end() =~= end);
    text::lemma_found_from(s, end, 0);
    text::lemma_found_from(frame, end, 0);
    assert(s.subrange(n, n + 2) =~= end);
    assert(text::occurs_at(s, end, n));
    match text::found_from(s, end, 0) {
        Some(i) => {
            if i < n {
                assert(s.subrange(i, i + 2) =~= frame.push('\n').subrange(i, i + 2));
                assert(text::occurs_at(frame.push('\n'), end, i));
            }
            assert(i == n);
            assert(s.skip(n + 2) =~= rest);
            assert(s.take(n) =~= frame);
        },
        None => {},
    }
    match text::found_from(frame, end, 0) {
        Some(i) => {
            assert(frame.subrange(i, i + 2) =~= frame.push('\n').subrange(i, i + 2));
            assert(text::occurs_at(frame.push('\n'), end, i));
        },
        None => {},
    }
}

/// The data of a frame are what stands behind `data: ` on its lines; other lines say nothing. Frames
/// give their data one behind the other.
pub proof fn law_data_stand_behind_their_name(
    lines: Seq<Seq<char>>,
    line: Seq<char>,
    before: Seq<Seq<char>>,
    frame: Seq<char>,
)
    ensures
        data_of_lines(Seq::empty()).len() == 0,
        data_of_lines(lines.push("data: "@ + line)) == data_of_lines(lines).push(line),
        !text::has_prefix(line, "data: "@) ==> data_of_lines(lines.push(line)) == data_of_lines(lines),
        data_of_frames(Seq::empty()).len() == 0,
        data_of_frames(before.push(frame)) == data_of_frames(before) + data_of_lines(
            text::lines_of(frame),
        ),
{
    let data = "data: "@ + line;
    assert(lines.push(data).drop_last() =~= lines);
    assert(lines.push(line).drop_last() =~= lines);
    assert(before.push(frame).drop_last() =~= before);
    assert(data.take("data: "@.len() as int) =~= "data: "@);
    assert(data.skip("data: "@.len() as int) =~= line);
}

proof fn lemma_nothing_after_done(before: Seq<Seq<char>>, after: Seq<Seq<char>>)
    ensures
        before_done(before.push("[DONE]"@) + after) == before_done(before),
        has_done(before.push("[DONE]"@) + after),
    decreases after.len(),
{
    let data = before.push("[DONE]"@) + after;
    assert(data[before.len() as int] == "[DONE]"@);
    if after.len() == 0 {
        assert(data.drop_last() =~= before);
    } else {
        lemma_nothing_after_done(before, after.drop_last());
        assert(data.drop_last() =~= before.push("[DONE]"@) + after.drop_last());
    }
}

proof fn lemma_all_before_done(data: Seq<Seq<char>>)
    requires
        forall|i: int| 0 <= i < data.len() ==> #[trigger] data[i] != "[DONE]"@,
    ensures
        before_done(data) == data,
        !has_done(data),
    decreases data.len(),
{
    if data.len() > 0 {
        assert forall|i: int| 0 <= i < data.drop_last().len() implies #[trigger] data.drop_last()[i]
            != "[DONE]"@ by {
            assert(data[i] != "[DONE]"@);
        }
        lemma_all_before_done(data.drop_last());
        assert(data.last() == data[data.len() - 1]);
        assert(data.drop_last().push(data.last()) =~= data);
    }
}

/// What comes before the sign of the end counts, and nothing behind it; without the sign all of it
/// counts.
pub proof fn law_the_end_ends_the_data(before: Seq<Seq<char>>, after: Seq<Seq<char>>)
    requires
        forall|i: int| 0 <= i < before.len() ==> #[trigger] before[i] != "[DONE]"@,
    ensures
        before_done(before.push("[DONE]"@) + after) == before,
        has_done(before.push("[DONE]"@) + after),
        before_done(before) == before,
        !has_done(before),
{
    lemma_nothing_after_done(before, after);
    lemma_all_before_done(before);
}

} // verus!
