//! Framing of the raw byte stream into messages.
//!
//! A frame is a run of lines ended by a line holding only the terminator
//! `\r\n`, or by the end of the stream. A line with a colon becomes a
//! header, split at the first colon with both parts trimmed; any other
//! line is appended, terminator included, to the free-text body. With
//! `first_only` a single line is consumed, for the greeting banner that
//! is not header-formatted.

use vstd::prelude::*;
use crate::message::{
    Message, MessageView, lookup, spec_insert, wf_headers, lemma_insert_wf, lemma_lookup_insert,
    lemma_lookup_insert_other,
};
use crate::text::{spec_trim, trim_bytes};
use vstd::slice::slice_subrange;

verus! {

/// The frame terminator, a line holding exactly a carriage return and a
/// line feed.
pub open spec fn crlf() -> Seq<u8> {
    seq![0x0du8, 0x0au8]
}

/// Length of the first line of `s`: everything up to and including the
/// first line feed, or all of `s` when it has none.
pub open spec fn line_len(s: Seq<u8>) -> int
    decreases s.len(),
{
    if s.len() == 0 {
        0
    } else if s[0] == 0x0a {
        1
    } else {
        1 + line_len(s.drop_first())
    }
}

pub proof fn lemma_line_len_bounds(s: Seq<u8>)
    ensures
        line_len(s) <= s.len(),
        s.len() > 0 ==> 1 <= line_len(s),
    decreases s.len(),
{
    if s.len() > 0 && s[0] != 0x0a {
        lemma_line_len_bounds(s.drop_first());
    }
}

/// A scan that saw no line feed among the first `i` bytes pins the line
/// length down.
proof fn lemma_line_len_at(s: Seq<u8>, i: int)
    requires
        0 <= i <= s.len(),
        forall|k: int| 0 <= k < i ==> s[k] != 0x0a,
        i == s.len() || s[i] == 0x0a,
    ensures
        line_len(s) == if i == s.len() {
            i
        } else {
            i + 1
        },
    decreases i,
{
    if i == 0 {
    } else {
        assert(s[0] != 0x0a);
        assert(forall|k: int| 0 <= k < i - 1 ==> s.drop_first()[k] == s[k + 1] && s[k + 1] != 0x0a);
        if i < s.len() {
            assert(s.drop_first()[i - 1] == s[i]);
        }
        lemma_line_len_at(s.drop_first(), i - 1);
    }
}

/// Whether some byte of `line` is a colon.
pub open spec fn has_colon(line: Seq<u8>) -> bool {
    exists|i: int| 0 <= i < line.len() && line[i] == 0x3a
}

/// Index of the first colon of `line`.
pub open spec fn colon_at(line: Seq<u8>) -> int
    decreases line.len(),
{
    if line.len() == 0 {
        0
    } else if line[0] == 0x3a {
        0
    } else {
        1 + colon_at(line.drop_first())
    }
}

proof fn lemma_colon_at(line: Seq<u8>, i: int)
    requires
        0 <= i <= line.len(),
        forall|k: int| 0 <= k < i ==> line[k] != 0x3a,
        i == line.len() || line[i] == 0x3a,
    ensures
        colon_at(line) == i,
        i < line.len() ==> has_colon(line),
        i == line.len() ==> !has_colon(line),
    decreases i,
{
    if i == 0 {
        if line.len() == 0 {
            assert(!has_colon(line));
        }
    } else {
        assert(line[0] != 0x3a);
        assert(forall|k: int|
            0 <= k < i - 1 ==> line.drop_first()[k] == line[k + 1] && line[k + 1] != 0x3a);
        if i < line.len() {
            assert(line.drop_first()[i - 1] == line[i]);
        }
        lemma_colon_at(line.drop_first(), i - 1);
        if i == line.len() {
            assert forall|k: int| 0 <= k < line.len() implies line[k] != 0x3a by {
                if k > 0 {
                    assert(!has_colon(line.drop_first()));
                    assert(line.drop_first()[k - 1] == line[k]);
                }
            }
        }
    }
}

/// The header name of a colon line: the bytes before the first colon,
/// trimmed.
pub open spec fn header_name(line: Seq<u8>) -> Seq<u8> {
    spec_trim(line.take(colon_at(line)))
}

/// The header value of a colon line: the bytes after the first colon,
/// trimmed.
pub open spec fn header_value(line: Seq<u8>) -> Seq<u8> {
    spec_trim(line.skip(colon_at(line) + 1))
}

/// One line folded into the message under construction.
pub open spec fn spec_feed(m: MessageView, line: Seq<u8>) -> MessageView {
    if has_colon(line) {
        MessageView {
            headers: spec_insert(m.headers, header_name(line), header_value(line)),
            rest: m.rest,
        }
    } else {
        MessageView { headers: m.headers, rest: m.rest + line }
    }
}

/// The message before any line has been read.
pub open spec fn empty_message() -> MessageView {
    MessageView { headers: Seq::empty(), rest: Seq::empty() }
}

/// The message that reading a frame from `s` accumulates on top of `m`:
/// lines are folded in until the terminator line, the end of the bytes,
/// or, with `first_only`, after a single line.
pub open spec fn frame_rem(s: Seq<u8>, first_only: bool, m: MessageView) -> MessageView
    decreases s.len(),
    via frame_rem_decreases
{
    if s.len() == 0 {
        m
    } else {
        let n = line_len(s);
        let line = s.take(n);
        if line == crlf() {
            m
        } else if first_only {
            spec_feed(m, line)
        } else {
            frame_rem(s.skip(n), false, spec_feed(m, line))
        }
    }
}

#[via_fn]
proof fn frame_rem_decreases(s: Seq<u8>, first_only: bool, m: MessageView) {
    lemma_line_len_bounds(s);
}

/// How many bytes reading one frame from `s` consumes.
pub open spec fn frame_used(s: Seq<u8>, first_only: bool) -> int
    decreases s.len(),
    via frame_used_decreases
{
    if s.len() == 0 {
        0
    } else {
        let n = line_len(s);
        if s.take(n) == crlf() || first_only {
            n
        } else {
            n + frame_used(s.skip(n), false)
        }
    }
}

#[via_fn]
proof fn frame_used_decreases(s: Seq<u8>, first_only: bool) {
    lemma_line_len_bounds(s);
}

/// Index just after the first line of `input` that starts at `from`.
fn next_line_end(input: &[u8], from: usize) -> (end: usize)
    requires
        from <= input@.len(),
    ensures
        from <= end <= input@.len(),
        end - from == line_len(input@.skip(from as int)),
    {
    let n = input.len();
    let mut i: usize = from;
    while i < n && input[i] != 0x0a
        invariant
            from <= i <= n,
            n == input@.len(),
            forall|k: int| from <= k < i ==> input@[k] != 0x0a,
        decreases n - i,
    {
        i = i + 1;
    }
    proof {
        let s = input@.skip(from as int);
        assert(forall|k: int| 0 <= k < i - from ==> s[k] == input@[k + from] && s[k] != 0x0a);
        if i < n {
            assert(s[i - from] == input@[i as int]);
        }
        lemma_line_len_at(s, i - from);
    }
    if i < n {
        i + 1
    } else {
        i
    }
}

/// Index of the first colon of `line`, if it has one.
fn find_colon(line: &[u8]) -> (r: Option<usize>)
    ensures
        match r {
            Some(i) => i == colon_at(line@) && i < line@.len() && has_colon(line@),
            None => !has_colon(line@),
        },
{
    let n = line.len();
    let mut i: usize = 0;
    while i < n && line[i] != 0x3a
        invariant
            0 <= i <= n,
            n == line@.len(),
            forall|k: int| 0 <= k < i ==> line@[k] != 0x3a,
        decreases n - i,
    {
        i = i + 1;
    }
    proof {
        lemma_colon_at(line@, i as int);
    }
    if i < n {
        Some(i)
    } else {
        None
    }
}

/// Whether `line` is exactly the frame terminator.
fn is_terminator_line(line: &[u8]) -> (r: bool)
    ensures
        r == (line@ == crlf()),
{
    if line.len() == 2 && line[0] == 0x0d && line[1] == 0x0a {
        proof {
            assert(line@ =~= crlf());
        }
        true
    } else {
        proof {
            if line@ == crlf() {
                assert(line@.len() == 2 && line@[0] == 0x0d && line@[1] == 0x0a);
            }
        }
        false
    }
}

/// Folds one line into `m` as [`spec_feed`] describes.
fn feed_line_into(m: &mut Message, line: &[u8])
    requires
        old(m).wf(),
    ensures
        final(m)@ == spec_feed(old(m)@, line@),
        final(m).wf(),
{
    match find_colon(line) {
        Some(i) => {
            let n = line.len();
            let name = trim_bytes(slice_subrange(line, 0, i));
            let value = trim_bytes(slice_subrange(line, i + 1, n));
            proof {
                assert(line@.subrange(0, i as int) =~= line@.take(colon_at(line@)));
                assert(line@.subrange(i + 1, line@.len() as int) =~= line@.skip(
                    colon_at(line@) + 1,
                ));
            }
            m.insert_header(name, value);
        },
        None => {
            m.append_rest(line);
        },
    }
}

/// Reads one frame from `input`, starting at `from`. Returns the message
/// and the position of the first byte after the frame.
pub fn read_message(input: &[u8], from: usize, first_only: bool) -> (r: (Message, usize))
    requires
        from <= input@.len(),
    ensures
        r.0@ == frame_rem(input@.skip(from as int), first_only, empty_message()),
        r.0.wf(),
        r.1 == from + frame_used(input@.skip(from as int), first_only),
        from <= r.1 <= input@.len(),
{
    let ghost rem0 = input@.skip(from as int);
    let mut m = Message::new();
    let mut pos: usize = from;
    proof {
        assert(m@ =~= empty_message());
    }
    while pos < input.len()
        invariant_except_break
            from <= pos <= input@.len(),
            m.wf(),
            frame_rem(rem0, first_only, empty_message()) == frame_rem(
                input@.skip(pos as int),
                first_only,
                m@,
            ),
            frame_used(rem0, first_only) == pos - from + frame_used(
                input@.skip(pos as int),
                first_only,
            ),
        ensures
            m.wf(),
            m@ == frame_rem(rem0, first_only, empty_message()),
            pos == from + frame_used(rem0, first_only),
            from <= pos <= input@.len(),
        decreases input@.len() - pos,
    {
        let ghost rem = input@.skip(pos as int);
        let end = next_line_end(input, pos);
        proof {
            lemma_line_len_bounds(rem);
        }
        let line = slice_subrange(input, pos, end);
        proof {
            assert(line@ =~= rem.take(line_len(rem)));
            assert(rem.skip(line_len(rem)) =~= input@.skip(end as int));
        }
        if is_terminator_line(line) {
            pos = end;
            break ;
        }
        feed_line_into(&mut m, line);
        pos = end;
        if first_only {
            break ;
        }
    }
    proof {
        if pos == input@.len() {
            assert(input@.skip(pos as int) =~= Seq::<u8>::empty());
        }
    }
    (m, pos)
}

/// The lines of `s`: each piece runs up to and including a line feed,
/// and a last piece without one is a line of its own.
pub open spec fn spec_lines(s: Seq<u8>) -> Seq<Seq<u8>>
    decreases s.len(),
    via spec_lines_decreases
{
    if s.len() == 0 {
        Seq::empty()
    } else {
        seq![s.take(line_len(s))] + spec_lines(s.skip(line_len(s)))
    }
}

#[via_fn]
proof fn spec_lines_decreases(s: Seq<u8>) {
    lemma_line_len_bounds(s);
}

/// The index of the first terminator line, or the line count when
/// there is none.
pub open spec fn term_idx(ls: Seq<Seq<u8>>) -> int
    decreases ls.len(),
{
    if ls.len() == 0 {
        0
    } else if ls.first() == crlf() {
        0
    } else {
        1 + term_idx(ls.drop_first())
    }
}

/// Lines folded into `m` one after the other, first line first.
pub open spec fn feed_all(m: MessageView, ls: Seq<Seq<u8>>) -> MessageView
    decreases ls.len(),
{
    if ls.len() == 0 {
        m
    } else {
        feed_all(spec_feed(m, ls.first()), ls.drop_first())
    }
}

/// The concatenation of the lines without a colon, in order.
pub open spec fn rest_cat(ls: Seq<Seq<u8>>) -> Seq<u8>
    decreases ls.len(),
{
    if ls.len() == 0 {
        Seq::empty()
    } else {
        (if has_colon(ls.first()) {
            Seq::empty()
        } else {
            ls.first()
        }) + rest_cat(ls.drop_first())
    }
}

/// The trimmed value of the last colon line whose trimmed name is `k`.
pub open spec fn last_header(ls: Seq<Seq<u8>>, k: Seq<u8>) -> Option<Seq<u8>>
    decreases ls.len(),
{
    if ls.len() == 0 {
        None
    } else if last_header(ls.drop_first(), k) is Some {
        last_header(ls.drop_first(), k)
    } else if has_colon(ls.first()) && header_name(ls.first()) == k {
        Some(header_value(ls.first()))
    } else {
        None
    }
}

/// Reading a frame folds in exactly the lines before the first
/// terminator line.
proof fn lemma_frame_rem_lines(s: Seq<u8>, m: MessageView)
    ensures
        frame_rem(s, false, m) == feed_all(m, spec_lines(s).take(term_idx(spec_lines(s)))),
    decreases s.len(),
{
    let ls = spec_lines(s);
    if s.len() == 0 {
        assert(ls.take(0) =~= Seq::<Seq<u8>>::empty());
    } else {
        lemma_line_len_bounds(s);
        let n = line_len(s);
        let l = s.take(n);
        let rest = s.skip(n);
        let lsr = spec_lines(rest);
        assert(ls == seq![l] + lsr);
        assert(ls.first() == l);
        assert(ls.drop_first() =~= lsr);
        if l == crlf() {
            assert(term_idx(ls) == 0);
            assert(ls.take(0) =~= Seq::<Seq<u8>>::empty());
        } else {
            lemma_frame_rem_lines(rest, spec_feed(m, l));
            let t = term_idx(lsr);
            assert(term_idx(ls) == 1 + t);
            lemma_term_idx_bounds(lsr);
            let consumed = ls.take(1 + t);
            assert(consumed.first() == l);
            assert(consumed.drop_first() =~= lsr.take(t));
            assert(feed_all(m, consumed) == feed_all(spec_feed(m, l), lsr.take(t)));
        }
    }
}

proof fn lemma_term_idx_bounds(ls: Seq<Seq<u8>>)
    ensures
        0 <= term_idx(ls) <= ls.len(),
    decreases ls.len(),
{
    if ls.len() > 0 && ls.first() != crlf() {
        lemma_term_idx_bounds(ls.drop_first());
    }
}

/// When the terminator stands at `t` and nowhere earlier, exactly the
/// first `t` lines are folded in.
proof fn lemma_term_idx_at(ls: Seq<Seq<u8>>, t: int)
    requires
        0 <= t <= ls.len(),
        forall|j: int| 0 <= j < t ==> ls[j] != crlf(),
        t == ls.len() || ls[t] == crlf(),
    ensures
        term_idx(ls) == t,
    decreases t,
{
    if t == 0 {
    } else {
        assert(ls.first() != crlf());
        assert(forall|j: int|
            0 <= j < t - 1 ==> ls.drop_first()[j] == ls[j + 1] && ls[j + 1] != crlf());
        if t < ls.len() {
            assert(ls.drop_first()[t - 1] == ls[t]);
        }
        lemma_term_idx_at(ls.drop_first(), t - 1);
    }
}

/// Folding lines appends exactly the non-colon lines to the body.
proof fn lemma_feed_all_rest(m: MessageView, ls: Seq<Seq<u8>>)
    ensures
        feed_all(m, ls).rest == m.rest + rest_cat(ls),
    decreases ls.len(),
{
    if ls.len() == 0 {
        assert(m.rest + rest_cat(ls) =~= m.rest);
    } else {
        lemma_feed_all_rest(spec_feed(m, ls.first()), ls.drop_first());
        assert(spec_feed(m, ls.first()).rest + rest_cat(ls.drop_first()) =~= m.rest + rest_cat(
            ls,
        ));
    }
}

/// Folding lines binds each name to the value of its last colon line,
/// and leaves names those lines never carry as they were.
proof fn lemma_feed_all_lookup(m: MessageView, ls: Seq<Seq<u8>>, k: Seq<u8>)
    requires
        wf_headers(m.headers),
    ensures
        wf_headers(feed_all(m, ls).headers),
        lookup(feed_all(m, ls).headers, k) == if last_header(ls, k) is Some {
            last_header(ls, k)
        } else {
            lookup(m.headers, k)
        },
    decreases ls.len(),
{
    if ls.len() == 0 {
    } else {
        let l = ls.first();
        let m2 = spec_feed(m, l);
        if has_colon(l) {
            lemma_insert_wf(m.headers, header_name(l), header_value(l));
            if header_name(l) == k {
                lemma_lookup_insert(m.headers, header_name(l), header_value(l));
            } else {
                lemma_lookup_insert_other(m.headers, header_name(l), header_value(l), k);
            }
        }
        lemma_feed_all_lookup(m2, ls.drop_first(), k);
    }
}

/// For a byte sequence with exactly one terminator line, the parsed
/// frame is the colon-split, trimmed header pairs of every colon line
/// before the terminator — the last occurrence of a name winning — and
/// the body is the concatenation of every non-colon line, in order.
pub proof fn lemma_single_terminator_frame(s: Seq<u8>, t: int, k: Seq<u8>)
    requires
        0 <= t < spec_lines(s).len(),
        spec_lines(s)[t] == crlf(),
        forall|j: int| 0 <= j < spec_lines(s).len() && j != t ==> spec_lines(s)[j] != crlf(),
    ensures
        frame_rem(s, false, empty_message()).rest == rest_cat(spec_lines(s).take(t)),
        lookup(frame_rem(s, false, empty_message()).headers, k) == last_header(
            spec_lines(s).take(t),
            k,
        ),
        wf_headers(frame_rem(s, false, empty_message()).headers),
{
    let ls = spec_lines(s);
    lemma_term_idx_at(ls, t);
    lemma_frame_rem_lines(s, empty_message());
    lemma_feed_all_rest(empty_message(), ls.take(t));
    lemma_feed_all_lookup(empty_message(), ls.take(t), k);
    assert(Seq::<u8>::empty() + rest_cat(ls.take(t)) =~= rest_cat(ls.take(t)));
}

/// Incremental framing of a stream that is read line by line. The caller
/// feeds each raw line, terminator included; an empty feed stands for the
/// end of the stream.
pub struct Framer {
    msg: Message,
    first_only: bool,
    done: bool,
}

impl Framer {
    /// The message accumulated so far.
    pub closed spec fn msg_view(&self) -> MessageView {
        self.msg@
    }

    /// Whether the frame is complete.
    pub closed spec fn is_done(&self) -> bool {
        self.done
    }

    /// Whether this framer consumes a single line.
    pub closed spec fn spec_first_only(&self) -> bool {
        self.first_only
    }

    pub open spec fn wf(&self) -> bool {
        crate::message::wf_headers(self.msg_view().headers)
    }

    /// A framer for one frame; `first_only` consumes a single line.
    pub fn new(first_only: bool) -> (r: Framer)
        ensures
            r.msg_view() == empty_message(),
            !r.is_done(),
            r.spec_first_only() == first_only,
            r.wf(),
    {
        let r = Framer { msg: Message::new(), first_only, done: false };
        proof {
            assert(r.msg_view() =~= empty_message());
        }
        r
    }

    /// Folds one raw line into the frame. An empty `line` means the
    /// stream ended. Returns whether the frame is complete.
    pub fn feed_line(&mut self, line: &[u8]) -> (done: bool)
        requires
            !old(self).is_done(),
            old(self).wf(),
        ensures
            done == final(self).is_done(),
            final(self).spec_first_only() == old(self).spec_first_only(),
            final(self).wf(),
            final(self).is_done() == (line@.len() == 0 || line@ == crlf()
                || old(self).spec_first_only()),
            final(self).msg_view() == if line@.len() == 0 || line@ == crlf() {
                old(self).msg_view()
            } else {
                spec_feed(old(self).msg_view(), line@)
            },
    {
        if line.len() == 0 {
            self.done = true;
            return true;
        }
        if is_terminator_line(line) {
            self.done = true;
            return true;
        }
        feed_line_into(&mut self.msg, line);
        if self.first_only {
            self.done = true;
        }
        self.done
    }

    /// Hands the accumulated message out.
    pub fn finish(self) -> (r: Message)
        ensures
            r@ == self.msg_view(),
            crate::message::wf_headers(r@.headers) == self.wf(),
    {
        self.msg
    }
}

} // verus!
