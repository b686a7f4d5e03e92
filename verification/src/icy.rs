//! ICY (Shoutcast/Icecast) in-band metadata.
//!
//! When the client sends `Icy-MetaData: 1`, the server answers with `icy-metaint: N` and
//! inserts a metadata block after every `N` bytes of audio:
//!
//! ```text
//! [N audio bytes][1 length byte L][L*16 bytes of metadata, NUL padded] [N audio bytes] ...
//! ```
//!
//! The metadata is `key='value';` pairs; the one we care about is `StreamTitle`. The reader
//! says what to read next, so that the decoder sees a clean audio byte stream, and which titles
//! to report.

use vstd::prelude::*;
use vstd::slice::slice_subrange;
use vstd::utf8::{decode_utf8, valid_utf8};

use crate::outside::{lossy_text, text_of_bytes};
use crate::text;
use crate::text::{
    first_at, next_at, stripped_end, trimmed, trimmed_start, white,
};
use crate::types::text_view;

verus! {

// ---------------------------------------------------------------------------------------------
// Titles

/// What a key is made of: anything but what ends one, quotes a value or parts two pairs.
pub open spec fn key_char(c: char) -> bool {
    c != '\'' && c != '"' && c != ';' && c != '=' && !white(c)
}

/// `s` begins with `key=`.
pub open spec fn begins_key(s: Seq<char>) -> bool {
    let e = first_at(s, '=');
    0 < e < s.len() && forall|i: int| 0 <= i < e ==> key_char(#[trigger] s[i])
}

/// What follows a terminator: nothing, or the next `key=`, after any white space.
pub open spec fn ends_value(after: Seq<char>) -> bool {
    let a = trimmed_start(after);
    a.len() == 0 || begins_key(a)
}

/// Where `';` first stands at `from` or later with the end of data or the next `key=` behind it.
pub open spec fn terminator(rest: Seq<char>, from: int) -> Option<int>
    decreases rest.len() - from,
{
    match next_at(rest, "';"@, from) {
        None => None,
        Some(i) => if from <= i < rest.len() {
            if ends_value(rest.skip(i + 2)) {
                Some(i)
            } else {
                terminator(rest, i + 1)
            }
        } else {
            None
        },
    }
}

/// Where a value that begins `rest` ends: at its terminator; at the first `';` when none has
/// what a terminator has behind it; at the end of data when there is no `';`.
pub open spec fn value_end(rest: Seq<char>) -> int {
    match terminator(rest, 0) {
        Some(i) => i,
        None => match next_at(rest, "';"@, 0) {
            Some(i) => i,
            None => rest.len() as int,
        },
    }
}

/// The title that the text of a metadata block names.
pub open spec fn title_in(block: Seq<char>) -> Option<Seq<char>> {
    let data = stripped_end(block, '\0');
    match next_at(data, "StreamTitle='"@, 0) {
        None => None,
        Some(i) => {
            let rest = data.skip(i + 13);
            let title = trimmed(rest.take(value_end(rest)));
            if title.len() == 0 {
                None
            } else {
                Some(title)
            }
        },
    }
}

fn ends_a_value(after: &[char]) -> (r: bool)
    ensures
        r == ends_value(after@),
{
    let a = text::trim_start(after);
    if a.len() == 0 {
        return true;
    }
    match text::find(a, '=') {
        None => false,
        Some(e) => {
            if e == 0 {
                return false;
            }
            let mut i: usize = 0;
            while i < e
                invariant
                    i <= e,
                    e < a.len(),
                    e == first_at(a@, '='),
                    a@ == trimmed_start(after@),
                    forall|j: int| 0 <= j < i ==> key_char(#[trigger] a@[j]),
                decreases e - i,
            {
                let c = a[i];
                if c == '\'' || c == '"' || c == ';' || c == '=' || text::is_white(c) {
                    assert(!key_char(a@[i as int]));
                    return false;
                }
                i = i + 1;
            }
            true
        },
    }
}

fn find_value_end(rest: &[char]) -> (end: usize)
    ensures
        end == value_end(rest@),
        end <= rest@.len(),
{
    proof {
        reveal_strlit("';");
    }
    let first = match text::find_next(rest, "';", 0) {
        None => {
            return rest.len();
        },
        Some(i) => i,
    };
    let mut at: usize = first;
    loop
        invariant
            first <= at,
            at + 2 <= rest@.len(),
            "';"@.len() == 2,
            next_at(rest@, "';"@, 0) == Some(first as int),
            terminator(rest@, 0) == (if ends_value(rest@.skip(at + 2)) {
                Some(at as int)
            } else {
                terminator(rest@, at + 1)
            }),
        decreases rest.len() - at,
    {
        let after: &[char] = slice_subrange(rest, at + 2, rest.len());
        assert(after@ =~= rest@.skip(at + 2));
        if ends_a_value(after) {
            return at;
        }
        match text::find_next(rest, "';", at + 1) {
            None => {
                return first;
            },
            Some(i) => {
                at = i;
            },
        }
    }
}

/// Extracts `StreamTitle='...';` from the text of a metadata block. Titles may legitimately
/// contain `'` (e.g. "Don't Stop"), so the terminator is `';` followed by either the end of data
/// or the next `key=`, rather than the first quote.
pub fn stream_title(block: &str) -> (r: Option<String>)
    ensures
        text_view(r) == title_in(block@),
{
    let chars = text::chars_of(block);
    let data = text::strip_end(&chars, '\0');
    proof {
        reveal_strlit("StreamTitle='");
        assert("StreamTitle='"@.len() == 13);
    }
    match text::find_next(data, "StreamTitle='", 0) {
        None => None,
        Some(i) => {
            let n: usize = data.len();
            let rest: &[char] = slice_subrange(data, i + 13, n);
            assert(rest@ =~= data@.skip(i + 13));
            let end: usize = find_value_end(rest);
            let value: &[char] = slice_subrange(rest, 0, end);
            assert(value@ =~= rest@.take(end as int));
            let title = text::trim(value);
            if title.len() == 0 {
                None
            } else {
                Some(text::string_of(title))
            }
        },
    }
}

/// Extracts the title from a raw metadata block.
pub fn parse_stream_title(block: &[u8]) -> (r: Option<String>)
    ensures
        text_view(r) == title_in(lossy_text(block@)),
        valid_utf8(block@) ==> text_view(r) == title_in(decode_utf8(block@)),
{
    let t = text_of_bytes(block);
    stream_title(t.as_str())
}

// ---------------------------------------------------------------------------------------------
// The reader

#[derive(Debug, Clone, PartialEq, Eq)]
pub struct IcyReader {
    /// `0` means the server sent no `icy-metaint`: the reader is a transparent pass-through.
    pub metaint: usize,
    /// Audio bytes left before the next metadata block.
    pub until_meta: usize,
    pub last_title: Option<String>,
}

/// What to read from the server next.
#[derive(Debug, Clone, Copy, PartialEq, Eq, Structural)]
pub enum Want {
    /// The buffer is empty: nothing.
    Nothing,
    /// A metadata block: its length byte, and 16 times as many bytes.
    Metadata,
    /// At most so many bytes of audio.
    Audio(usize),
}

/// How long the block is that a length byte announces.
pub fn block_len(length: u8) -> (n: usize)
    ensures
        n == length * 16,
{
    length as usize * 16
}

impl IcyReader {
    /// The distance to the next block is never more than the distance between two blocks.
    pub open spec fn wf(&self) -> bool {
        self.until_meta <= self.metaint
    }

    pub fn new(metaint: Option<usize>) -> (r: IcyReader)
        ensures
            r.wf(),
            r.metaint == (match metaint {
                Some(n) => n,
                None => 0,
            }),
            r.until_meta == r.metaint,
            r.last_title is None,
    {
        let metaint: usize = match metaint {
            Some(n) => n,
            None => 0,
        };
        IcyReader { metaint, until_meta: metaint, last_title: None }
    }

    /// What to read next for a buffer of `buf_len` bytes.
    pub fn want(&self, buf_len: usize) -> (w: Want)
        ensures
            w == wanted(self.metaint as nat, self.until_meta as nat, buf_len as nat),
    {
        if buf_len == 0 {
            Want::Nothing
        } else if self.metaint == 0 {
            Want::Audio(buf_len)
        } else if self.until_meta == 0 {
            Want::Metadata
        } else if buf_len < self.until_meta {
            Want::Audio(buf_len)
        } else {
            Want::Audio(self.until_meta)
        }
    }

    /// `n` bytes of audio were read.
    pub fn took(&mut self, n: usize)
        requires
            old(self).metaint > 0 ==> n <= old(self).until_meta,
        ensures
            final(self).metaint == old(self).metaint,
            final(self).last_title == old(self).last_title,
            final(self).until_meta == (if old(self).metaint == 0 {
                old(self).until_meta as int
            } else {
                old(self).until_meta - n
            }),
    {
        if self.metaint > 0 {
            self.until_meta = self.until_meta - n;
        }
    }

    /// A metadata block was read, without its length byte. The title to report, when it names
    /// one that differs from the last.
    pub fn read_metadata_block(&mut self, block: &[u8]) -> (title: Option<String>)
        ensures
            final(self).metaint == old(self).metaint,
            final(self).until_meta == old(self).metaint,
            (text_view(final(self).last_title), text_view(title)) == after_block(
                text_view(old(self).last_title),
                block_title(block@),
            ),
            valid_utf8(block@) ==> (text_view(final(self).last_title), text_view(title))
                == after_block(
                text_view(old(self).last_title),
                if block@.len() == 0 {
                    None
                } else {
                    title_in(decode_utf8(block@))
                },
            ),
    {
        self.until_meta = self.metaint;
        if block.len() == 0 {
            return None;
        }
        self.report(parse_stream_title(block))
    }

    /// A block named `title`: the title to report, when it differs from the last.
    pub fn report(&mut self, title: Option<String>) -> (r: Option<String>)
        ensures
            final(self).metaint == old(self).metaint,
            final(self).until_meta == old(self).until_meta,
            (text_view(final(self).last_title), text_view(r)) == after_block(
                text_view(old(self).last_title),
                text_view(title),
            ),
    {
        match title {
            None => None,
            Some(t) => {
                let known = match &self.last_title {
                    Some(l) => *l == t,
                    None => false,
                };
                if known {
                    None
                } else {
                    self.last_title = Some(t.clone());
                    Some(t)
                }
            },
        }
    }
}

/// What to read next.
pub open spec fn wanted(metaint: nat, until_meta: nat, buf_len: nat) -> Want {
    if buf_len == 0 {
        Want::Nothing
    } else if metaint == 0 {
        Want::Audio(buf_len as usize)
    } else if until_meta == 0 {
        Want::Metadata
    } else {
        Want::Audio(
            if buf_len < until_meta {
                buf_len as usize
            } else {
                until_meta as usize
            },
        )
    }
}

/// The title that a metadata block names; an empty block names none.
pub open spec fn block_title(block: Seq<u8>) -> Option<Seq<char>> {
    if block.len() == 0 {
        None
    } else {
        title_in(lossy_text(block))
    }
}

/// The last title known, and the title to report, after a block that named `title`.
pub open spec fn after_block(last: Option<Seq<char>>, title: Option<Seq<char>>) -> (
    Option<Seq<char>>,
    Option<Seq<char>>,
) {
    match title {
        Some(t) if last != Some(t) => (Some(t), Some(t)),
        _ => (last, None),
    }
}

// ---------------------------------------------------------------------------------------------
// What the reader keeps

/// The audio of a stream whose next block is `until` bytes away: the stream without its blocks,
/// up to a block that is cut short.
pub open spec fn audio_of(stream: Seq<u8>, metaint: nat, until: nat) -> Seq<u8>
    decreases stream.len(), until,
{
    if metaint == 0 || stream.len() <= until {
        stream
    } else if until > 0 {
        stream.take(until as int) + audio_of(stream.skip(until as int), metaint, 0)
    } else {
        let block = 1 + 16 * stream[0];
        if block <= stream.len() {
            audio_of(stream.skip(block), metaint, metaint)
        } else {
            Seq::empty()
        }
    }
}

/// One read of the server: a buffer of `buf_len` bytes was offered and, where audio was wanted,
/// `got` bytes came.
pub struct ReadStep {
    pub buf_len: nat,
    pub got: nat,
}

/// A read that the server can answer that way: audio that was wanted and is there, or a block
/// that is there whole.
pub open spec fn answers(stream: Seq<u8>, metaint: nat, until: nat, step: ReadStep) -> bool {
    match wanted(metaint, until, step.buf_len) {
        Want::Nothing => step.got == 0,
        Want::Metadata => step.got == 0 && stream.len() > 0 && 1 + 16 * stream[0] <= stream.len(),
        Want::Audio(n) => step.got <= n && step.got <= stream.len(),
    }
}

/// Where the stream and the reader stand after a read.
pub open spec fn after_read(stream: Seq<u8>, metaint: nat, until: nat, step: ReadStep) -> (
    Seq<u8>,
    nat,
) {
    match wanted(metaint, until, step.buf_len) {
        Want::Nothing => (stream, until),
        Want::Metadata => (stream.skip(1 + 16 * stream[0]), metaint),
        Want::Audio(_) => (
            stream.skip(step.got as int),
            if metaint == 0 {
                until
            } else {
                (until - step.got) as nat
            },
        ),
    }
}

/// Every read of `steps` is one that the server can answer.
pub open spec fn all_answer(
    stream: Seq<u8>,
    metaint: nat,
    until: nat,
    steps: Seq<ReadStep>,
) -> bool
    decreases steps.len(),
{
    steps.len() > 0 ==> {
        let (rest, left) = after_read(stream, metaint, until, steps[0]);
        answers(stream, metaint, until, steps[0]) && all_answer(rest, metaint, left, steps.skip(1))
    }
}

/// The audio that a run of reads delivers, and the stream and distance they leave.
pub open spec fn delivered(
    stream: Seq<u8>,
    metaint: nat,
    until: nat,
    steps: Seq<ReadStep>,
) -> (Seq<u8>, Seq<u8>, nat)
    decreases steps.len(),
{
    if steps.len() == 0 {
        (Seq::empty(), stream, until)
    } else {
        let (rest, left) = after_read(stream, metaint, until, steps[0]);
        let (audio, end, at) = delivered(rest, metaint, left, steps.skip(1));
        (stream.take(steps[0].got as int) + audio, end, at)
    }
}

/// However the reads are cut, what they deliver followed by the audio still to come is the
/// stream without its metadata blocks: no byte of audio is lost, none of metadata gets through.
pub proof fn reads_deliver_the_audio(
    stream: Seq<u8>,
    metaint: nat,
    until: nat,
    steps: Seq<ReadStep>,
)
    requires
        until <= metaint <= usize::MAX,
        forall|i: int| 0 <= i < steps.len() ==> (#[trigger] steps[i]).buf_len <= usize::MAX,
        all_answer(stream, metaint, until, steps),
    ensures
        ({
            let (audio, rest, left) = delivered(stream, metaint, until, steps);
            audio + audio_of(rest, metaint, left) == audio_of(stream, metaint, until)
        }),
    decreases steps.len(),
{
    if steps.len() == 0 {
        assert(Seq::<u8>::empty() + audio_of(stream, metaint, until) =~= audio_of(
            stream,
            metaint,
            until,
        ));
    } else {
        let step = steps[0];
        let (rest, left) = after_read(stream, metaint, until, step);
        let (audio, end, at) = delivered(rest, metaint, left, steps.skip(1));
        assert forall|i: int| 0 <= i < steps.skip(1).len() implies (#[trigger] steps.skip(
            1,
        )[i]).buf_len <= usize::MAX by {
            assert(steps.skip(1)[i] == steps[i + 1]);
        }
        reads_deliver_the_audio(rest, metaint, left, steps.skip(1));
        let head = stream.take(step.got as int);
        assert(head + audio + audio_of(end, metaint, at) =~= head + (audio + audio_of(
            end,
            metaint,
            at,
        )));
        assert(head + audio_of(rest, metaint, left) == audio_of(stream, metaint, until)) by {
            one_read_delivers(stream, metaint, until, step);
        }
    }
}

proof fn one_read_delivers(stream: Seq<u8>, metaint: nat, until: nat, step: ReadStep)
    requires
        until <= metaint <= usize::MAX,
        step.buf_len <= usize::MAX,
        answers(stream, metaint, until, step),
    ensures
        ({
            let (rest, left) = after_read(stream, metaint, until, step);
            stream.take(step.got as int) + audio_of(rest, metaint, left) == audio_of(
                stream,
                metaint,
                until,
            )
        }),
{
    let (rest, left) = after_read(stream, metaint, until, step);
    let head = stream.take(step.got as int);
    match wanted(metaint, until, step.buf_len) {
        Want::Nothing => {
            assert(head + audio_of(rest, metaint, left) =~= audio_of(stream, metaint, until));
        },
        Want::Metadata => {
            assert(head =~= Seq::<u8>::empty());
            assert(head + audio_of(rest, metaint, left) =~= audio_of(rest, metaint, left));
        },
        Want::Audio(n) => {
            if metaint == 0 || stream.len() <= until {
                assert(head + rest =~= stream);
            } else {
                assert(rest.skip(left as int) =~= stream.skip(until as int));
                assert(stream.take(until as int) =~= head + rest.take(left as int));
                let tail = audio_of(stream.skip(until as int), metaint, 0);
                assert(head + (rest.take(left as int) + tail) =~= head + rest.take(left as int)
                    + tail);
                if left == 0 {
                    assert(rest =~= stream.skip(until as int));
                    assert(rest.take(0) + tail =~= tail);
                }
            }
        },
    }
}

// ---------------------------------------------------------------------------------------------
// What a block says

/// A value ends where nothing but white space follows, or the next key, made of one character or
/// more that are no quote, no `;`, no `=` and no white space, with its `=`.
pub proof fn what_ends_a_value(w: Seq<char>, key: Seq<char>, more: Seq<char>)
    requires
        forall|i: int| 0 <= i < w.len() ==> white(#[trigger] w[i]),
        key.len() > 0,
        forall|i: int|
            0 <= i < key.len() ==> #[trigger] key[i] != '\'' && key[i] != '"' && key[i] != ';'
                && key[i] != '=' && !white(key[i]),
    ensures
        ends_value(w),
        ends_value(w + key.push('=') + more),
{
    let none = Seq::<char>::empty();
    starts_after_white(w, none);
    assert(w + none =~= w);
    let rest = key.push('=') + more;
    assert(rest[0] == key[0]);
    starts_after_white(w, rest);
    assert(w + key.push('=') + more =~= w + rest);
    let n = key.len() as int;
    assert forall|i: int| 0 <= i < n implies rest[i] != '=' by {
        assert(rest[i] == key[i]);
    }
    text::first_at_unique(rest, '=', n);
    assert forall|i: int| 0 <= i < n implies key_char(#[trigger] rest[i]) by {
        assert(rest[i] == key[i]);
    }
}

/// A value does not end where a quote, a `;` or an `=` comes next, nor where no `=` follows.
pub proof fn what_does_not_end_a_value(w: Seq<char>, rest: Seq<char>)
    requires
        forall|i: int| 0 <= i < w.len() ==> white(#[trigger] w[i]),
        rest.len() > 0,
        !white(rest[0]),
        rest[0] == '\'' || rest[0] == '"' || rest[0] == ';' || rest[0] == '=' || (forall|i: int|
            0 <= i < rest.len() ==> #[trigger] rest[i] != '='),
    ensures
        !ends_value(w + rest),
{
    starts_after_white(w, rest);
    text::first_at_is_first(rest, '=');
    if begins_key(rest) {
        assert(key_char(rest[0]));
        assert(rest[first_at(rest, '=')] == '=');
    }
}

proof fn starts_after_white(w: Seq<char>, rest: Seq<char>)
    requires
        forall|i: int| 0 <= i < w.len() ==> white(#[trigger] w[i]),
        rest.len() > 0 ==> !white(rest[0]),
    ensures
        trimmed_start(w + rest) == rest,
    decreases w.len(),
{
    if w.len() > 0 {
        let less = w.skip(1);
        assert forall|i: int| 0 <= i < less.len() implies white(#[trigger] less[i]) by {
            assert(less[i] == w[i + 1]);
        }
        starts_after_white(less, rest);
        assert(white(w[0]));
        assert((w + rest).skip(1) =~= less + rest);
    } else {
        assert(w + rest =~= rest);
    }
}

/// The title of a block is what stands between `StreamTitle='` and the first `';` that ends a
/// value, quotes and other `';` in it included, without the white space around it; a title of
/// nothing else is none. The zeros behind it all are padding.
pub proof fn a_title_is_read_to_its_end(
    before: Seq<char>,
    title: Seq<char>,
    after: Seq<char>,
    padding: Seq<char>,
)
    requires
        ({
            let rest = title + seq!['\'', ';'] + after;
            let data = before + "StreamTitle='"@ + rest;
            &&& forall|k: int| 0 <= k < before.len() ==> !text::stands_at(data, "StreamTitle='"@, k)
            &&& ends_value(after)
            &&& forall|k: int|
                0 <= k < title.len() && rest[k] == '\'' && rest[k + 1] == ';' ==> !ends_value(
                    #[trigger] rest.skip(k + 2),
                )
            &&& data.last() != '\0'
        }),
        forall|i: int| 0 <= i < padding.len() ==> #[trigger] padding[i] == '\0',
    ensures
        ({
            let block = before + "StreamTitle='"@ + title + seq!['\'', ';'] + after + padding;
            title_in(block) == (if trimmed(title).len() == 0 {
                None
            } else {
                Some(trimmed(title))
            })
        }),
{
    let lit = "StreamTitle='"@;
    reveal_strlit("StreamTitle='");
    reveal_strlit("';");
    let end = "';"@;
    assert(end =~= seq!['\'', ';']);
    let rest = title + seq!['\'', ';'] + after;
    let data = before + lit + rest;
    let block = before + lit + title + seq!['\'', ';'] + after + padding;
    assert(block =~= data + padding);
    padding_is_stripped(data, padding);
    let n = before.len() as int;
    text::a_part_is_found(data, lit, n);
    assert(text::stands_at(data, lit, n)) by {
        assert forall|k: int| 0 <= k < lit.len() implies data[n + k] == #[trigger] lit[k] by {}
    }
    text::the_next_place_is_the_first(data, lit, 0);
    assert(next_at(data, lit, 0) == Some(n));
    assert(data.skip(n + 13) =~= rest);
    the_value_ends_there(title, after, 0);
    assert(rest.take(title.len() as int) =~= title);
}

proof fn padding_is_stripped(data: Seq<char>, padding: Seq<char>)
    requires
        data.len() > 0,
        data.last() != '\0',
        forall|i: int| 0 <= i < padding.len() ==> #[trigger] padding[i] == '\0',
    ensures
        stripped_end(data + padding, '\0') == data,
    decreases padding.len(),
{
    let all = data + padding;
    if padding.len() > 0 {
        let less = padding.drop_last();
        assert forall|i: int| 0 <= i < less.len() implies #[trigger] less[i] == '\0' by {
            assert(less[i] == padding[i]);
        }
        padding_is_stripped(data, less);
        assert(all.drop_last() =~= data + less);
        assert(all.last() == padding[padding.len() - 1]);
    } else {
        assert(all =~= data);
    }
}

proof fn the_value_ends_there(title: Seq<char>, after: Seq<char>, from: int)
    requires
        0 <= from <= title.len(),
        ends_value(after),
        ({
            let rest = title + seq!['\'', ';'] + after;
            forall|k: int|
                0 <= k < title.len() && rest[k] == '\'' && rest[k + 1] == ';' ==> !ends_value(
                    #[trigger] rest.skip(k + 2),
                )
        }),
    ensures
        terminator(title + seq!['\'', ';'] + after, from) == Some(title.len() as int),
    decreases title.len() - from,
{
    let rest = title + seq!['\'', ';'] + after;
    let end = "';"@;
    let n = title.len() as int;
    reveal_strlit("';");
    assert(end =~= seq!['\'', ';']);
    text::a_part_is_found(rest, end, n);
    assert(text::stands_at(rest, end, n)) by {
        assert forall|k: int| 0 <= k < end.len() implies rest[n + k] == #[trigger] end[k] by {}
    }
    text::the_next_place_is_the_first(rest, end, from);
    let i = next_at(rest, end, from)->0;
    assert(next_at(rest, end, from) is Some && i <= n);
    if i == n {
        assert(rest.skip(n + 2) =~= after);
    } else {
        text::a_part_is_found(rest, end, i);
        assert(rest[i + 0] == end[0] && rest[i + 1] == end[1]);
        assert(!ends_value(rest.skip(i + 2)));
        the_value_ends_there(title, after, i + 1);
    }
}

/// What is read next: nothing into no buffer; a block where one stands; otherwise audio, as much as
/// the buffer takes and no more than up to the next block, where there are blocks.
pub proof fn what_is_read_next(metaint: usize, until: usize, buf_len: usize)
    ensures
        wanted(metaint as nat, until as nat, 0) is Nothing,
        buf_len > 0 && metaint == 0 ==> wanted(0, until as nat, buf_len as nat) == Want::Audio(
            buf_len,
        ),
        buf_len > 0 && metaint > 0 && until == 0 ==> wanted(metaint as nat, 0, buf_len as nat)
            is Metadata,
        buf_len > 0 && metaint > 0 && until > 0 ==> wanted(
            metaint as nat,
            until as nat,
            buf_len as nat,
        ) == Want::Audio(
            if buf_len <= until {
                buf_len
            } else {
                until
            },
        ),
{
}

/// A block that names a title other than the last is reported, and is the last from then on; a block
/// that names the last, or none, changes nothing. An empty block names none, and any other what its
/// text says.
pub proof fn what_a_block_reports(last: Option<Seq<char>>, t: Seq<char>, block: Seq<u8>)
    ensures
        last != Some(t) ==> after_block(last, Some(t)) == (Some(t), Some(t)),
        last == Some(t) ==> after_block(last, Some(t)) == (last, None::<Seq<char>>),
        after_block(last, None) == (last, None::<Seq<char>>),
        block.len() == 0 ==> block_title(block) is None,
        block.len() > 0 ==> block_title(block) == title_in(lossy_text(block)),
{
}

// ---------------------------------------------------------------------------------------------
// Titles over a run of reads

/// The metadata blocks of a stream whose next block is `until` bytes away, without their length
/// bytes, up to one that is cut short.
pub open spec fn blocks_of(stream: Seq<u8>, metaint: nat, until: nat) -> Seq<Seq<u8>>
    decreases stream.len(), until,
{
    if metaint == 0 || stream.len() <= until {
        Seq::empty()
    } else if until > 0 {
        blocks_of(stream.skip(until as int), metaint, 0)
    } else {
        let block = 1 + 16 * stream[0];
        if block <= stream.len() {
            seq![stream.subrange(1, block)] + blocks_of(stream.skip(block), metaint, metaint)
        } else {
            Seq::empty()
        }
    }
}

/// The titles to report of a run of blocks, when `last` was reported before them: of each block
/// that names a title other than the last one reported, that title.
pub open spec fn changes(last: Option<Seq<char>>, blocks: Seq<Seq<u8>>) -> Seq<Seq<char>>
    decreases blocks.len(),
{
    if blocks.len() == 0 {
        Seq::empty()
    } else {
        let rest = blocks.skip(1);
        match block_title(blocks[0]) {
            Some(t) if last != Some(t) => seq![t] + changes(Some(t), rest),
            _ => changes(last, rest),
        }
    }
}

/// The titles that a run of reads reports, in order, and the last title known after it.
pub open spec fn reported(
    stream: Seq<u8>,
    metaint: nat,
    until: nat,
    last: Option<Seq<char>>,
    steps: Seq<ReadStep>,
) -> (Seq<Seq<char>>, Option<Seq<char>>)
    decreases steps.len(),
{
    if steps.len() == 0 {
        (Seq::empty(), last)
    } else {
        let (rest, left) = after_read(stream, metaint, until, steps[0]);
        if wanted(metaint, until, steps[0].buf_len) is Metadata {
            let (known, report) = after_block(
                last,
                block_title(stream.subrange(1, 1 + 16 * stream[0])),
            );
            let (more, end) = reported(rest, metaint, left, known, steps.skip(1));
            (
                match report {
                    Some(t) => seq![t] + more,
                    None => more,
                },
                end,
            )
        } else {
            reported(rest, metaint, left, last, steps.skip(1))
        }
    }
}

/// However the reads are cut, the titles they report followed by those still to be reported are
/// the changes of title over the blocks of the stream, once each and in order.
pub proof fn reads_report_the_changes(
    stream: Seq<u8>,
    metaint: nat,
    until: nat,
    last: Option<Seq<char>>,
    steps: Seq<ReadStep>,
)
    requires
        until <= metaint <= usize::MAX,
        forall|i: int| 0 <= i < steps.len() ==> (#[trigger] steps[i]).buf_len <= usize::MAX,
        all_answer(stream, metaint, until, steps),
    ensures
        ({
            let (titles, known) = reported(stream, metaint, until, last, steps);
            let (_, rest, left) = delivered(stream, metaint, until, steps);
            titles + changes(known, blocks_of(rest, metaint, left)) == changes(
                last,
                blocks_of(stream, metaint, until),
            )
        }),
    decreases steps.len(),
{
    let all = changes(last, blocks_of(stream, metaint, until));
    if steps.len() == 0 {
        assert(Seq::<Seq<char>>::empty() + all =~= all);
    } else {
        let step = steps[0];
        let (rest, left) = after_read(stream, metaint, until, step);
        assert forall|i: int| 0 <= i < steps.skip(1).len() implies (#[trigger] steps.skip(
            1,
        )[i]).buf_len <= usize::MAX by {
            assert(steps.skip(1)[i] == steps[i + 1]);
        }
        one_read_takes_its_block(stream, metaint, until, step);
        if wanted(metaint, until, step.buf_len) is Metadata {
            let block = stream.subrange(1, 1 + 16 * stream[0]);
            let (known, report) = after_block(last, block_title(block));
            reads_report_the_changes(rest, metaint, left, known, steps.skip(1));
            let (more, end) = reported(rest, metaint, left, known, steps.skip(1));
            let (_, over, at) = delivered(rest, metaint, left, steps.skip(1));
            let later = changes(end, blocks_of(over, metaint, at));
            let blocks = blocks_of(stream, metaint, until);
            assert(blocks.skip(1) =~= blocks_of(rest, metaint, left));
            assert(blocks[0] == block);
            if let Some(t) = report {
                assert(seq![t] + more + later =~= seq![t] + (more + later));
            }
        } else {
            reads_report_the_changes(rest, metaint, left, last, steps.skip(1));
        }
    }
}

/// A read takes the next block, or none.
proof fn one_read_takes_its_block(stream: Seq<u8>, metaint: nat, until: nat, step: ReadStep)
    requires
        until <= metaint <= usize::MAX,
        step.buf_len <= usize::MAX,
        answers(stream, metaint, until, step),
    ensures
        ({
            let (rest, left) = after_read(stream, metaint, until, step);
            blocks_of(stream, metaint, until) == (if wanted(
                metaint,
                until,
                step.buf_len,
            ) is Metadata {
                seq![stream.subrange(1, 1 + 16 * stream[0])]
            } else {
                Seq::empty()
            }) + blocks_of(rest, metaint, left)
        }),
{
    let (rest, left) = after_read(stream, metaint, until, step);
    let none = Seq::<Seq<u8>>::empty();
    let ahead = blocks_of(rest, metaint, left);
    assert(none + ahead =~= ahead);
    if wanted(metaint, until, step.buf_len) is Audio {
        if metaint > 0 && stream.len() > until {
            assert(rest.skip(left as int) =~= stream.skip(until as int));
            if left == 0 {
                assert(rest =~= stream.skip(until as int));
            }
        }
    }
}

/// No title is reported twice in a row, nor the one that was known before.
pub proof fn reports_differ(last: Option<Seq<char>>, blocks: Seq<Seq<u8>>)
    ensures
        ({
            let titles = changes(last, blocks);
            &&& titles.len() > 0 ==> last != Some(titles[0])
            &&& forall|i: int| 0 < i < titles.len() ==> #[trigger] titles[i] != titles[i - 1]
        }),
    decreases blocks.len(),
{
    if blocks.len() > 0 {
        let rest = blocks.skip(1);
        let titles = changes(last, blocks);
        match block_title(blocks[0]) {
            Some(t) if last != Some(t) => {
                reports_differ(Some(t), rest);
                let more = changes(Some(t), rest);
                assert forall|i: int| 0 < i < titles.len() implies #[trigger] titles[i]
                    != titles[i - 1] by {
                    assert(titles[i] == more[i - 1]);
                    if i > 1 {
                        assert(titles[i - 1] == more[i - 2]);
                    }
                }
            },
            _ => {
                reports_differ(last, rest);
            },
        }
    }
}

/// A stretch of audio and the metadata block behind it.
pub struct Stretch {
    pub audio: Seq<u8>,
    pub block: Seq<u8>,
}

/// The stretches as a server sends them, and the audio it ends with.
pub open spec fn sent_as(stretches: Seq<Stretch>, end: Seq<u8>) -> Seq<u8>
    decreases stretches.len(),
{
    if stretches.len() == 0 {
        end
    } else {
        let s = stretches[0];
        s.audio + seq![(s.block.len() / 16) as u8] + s.block + sent_as(stretches.skip(1), end)
    }
}

/// The audio of the stretches, and what the stream ends with.
pub open spec fn heard(stretches: Seq<Stretch>, end: Seq<u8>) -> Seq<u8>
    decreases stretches.len(),
{
    if stretches.len() == 0 {
        end
    } else {
        stretches[0].audio + heard(stretches.skip(1), end)
    }
}

/// Stretches of `metaint` bytes of audio, each with a block that a length byte can announce, and
/// an end that is shorter than a stretch.
pub open spec fn well_sent(stretches: Seq<Stretch>, end: Seq<u8>, metaint: nat) -> bool {
    &&& end.len() < metaint
    &&& forall|i: int|
        0 <= i < stretches.len() ==> {
            let s = #[trigger] stretches[i];
            s.audio.len() == metaint && s.block.len() % 16 == 0 && s.block.len() <= 255 * 16
        }
}

/// A stream that is read to its end, in whatever pieces: the decoder gets the audio and nothing
/// else, and the titles reported are those of the blocks that name another title than the last
/// one reported, once each and in order.
pub proof fn a_stream_read_to_its_end(
    stretches: Seq<Stretch>,
    end: Seq<u8>,
    metaint: nat,
    last: Option<Seq<char>>,
    steps: Seq<ReadStep>,
)
    requires
        well_sent(stretches, end, metaint),
        metaint <= usize::MAX,
        forall|i: int| 0 <= i < steps.len() ==> (#[trigger] steps[i]).buf_len <= usize::MAX,
        all_answer(sent_as(stretches, end), metaint, metaint, steps),
        delivered(sent_as(stretches, end), metaint, metaint, steps).1.len() == 0,
    ensures
        delivered(sent_as(stretches, end), metaint, metaint, steps).0 == heard(stretches, end),
        reported(sent_as(stretches, end), metaint, metaint, last, steps).0 == changes(
            last,
            stretches.map_values(|s: Stretch| s.block),
        ),
{
    let stream = sent_as(stretches, end);
    let (audio, rest, left) = delivered(stream, metaint, metaint, steps);
    let (titles, known) = reported(stream, metaint, metaint, last, steps);
    reads_deliver_the_audio(stream, metaint, metaint, steps);
    reads_report_the_changes(stream, metaint, metaint, last, steps);
    sent_as_is_read_so(stretches, end, metaint);
    assert(audio + audio_of(rest, metaint, left) =~= audio);
    assert(titles + changes(known, blocks_of(rest, metaint, left)) =~= titles);
}

proof fn sent_as_is_read_so(stretches: Seq<Stretch>, end: Seq<u8>, metaint: nat)
    requires
        well_sent(stretches, end, metaint),
    ensures
        audio_of(sent_as(stretches, end), metaint, metaint) == heard(stretches, end),
        blocks_of(sent_as(stretches, end), metaint, metaint) == stretches.map_values(
            |s: Stretch| s.block,
        ),
    decreases stretches.len(),
{
    let stream = sent_as(stretches, end);
    let blocks = stretches.map_values(|s: Stretch| s.block);
    if stretches.len() == 0 {
        assert(blocks =~= Seq::<Seq<u8>>::empty());
    } else {
        let s = stretches[0];
        let more = stretches.skip(1);
        assert forall|i: int| 0 <= i < more.len() implies {
            let s = #[trigger] more[i];
            s.audio.len() == metaint && s.block.len() % 16 == 0 && s.block.len() <= 255 * 16
        } by {
            assert(more[i] == stretches[i + 1]);
        }
        sent_as_is_read_so(more, end, metaint);
        let tail = sent_as(more, end);
        let at = stream.skip(metaint as int);
        let n = s.block.len() as int;
        assert(stream.take(metaint as int) =~= s.audio);
        assert(at =~= seq![(s.block.len() / 16) as u8] + s.block + tail);
        assert(16 * at[0] == n);
        assert(at.subrange(1, 1 + n) =~= s.block);
        assert(at.skip(1 + n) =~= tail);
        assert(audio_of(at, metaint, 0) == heard(more, end));
        assert(blocks_of(at, metaint, 0) =~= seq![s.block] + blocks_of(tail, metaint, metaint));
        assert(blocks =~= seq![s.block] + more.map_values(|s: Stretch| s.block));
    }
}

} // verus!
