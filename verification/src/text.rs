//! The layout of a survey description: lines, and the fields of a line.
//!
//! A description is plain text. A line ends at a line feed; the last line
//! need not have one. The fields of a line are its longest runs of bytes that
//! are not white space.

use vstd::prelude::*;

verus! {

/// White space: the space, and the control characters from the horizontal
/// tab through the carriage return.
pub open spec fn is_space(b: u8) -> bool {
    b == 32 || 9 <= b <= 13
}

/// How many bytes at the start of `s` are not white space.
pub open spec fn word_run(s: Seq<u8>) -> nat
    decreases s.len(),
{
    if s.len() > 0 && !is_space(s[0]) {
        1 + word_run(s.drop_first())
    } else {
        0
    }
}

/// How many bytes at the start of `s` come before its first line feed.
pub open spec fn line_run(s: Seq<u8>) -> nat
    decreases s.len(),
{
    if s.len() > 0 && s[0] != 10 {
        1 + line_run(s.drop_first())
    } else {
        0
    }
}

/// A run of bytes that are not white space is no longer than the text.
pub proof fn lemma_word_run_bound(s: Seq<u8>)
    ensures
        word_run(s) <= s.len(),
    decreases s.len(),
{
    if s.len() > 0 && !is_space(s[0]) {
        lemma_word_run_bound(s.drop_first());
    }
}

/// The fields of a line, in order.
pub open spec fn fields(s: Seq<u8>) -> Seq<Seq<u8>>
    decreases s.len(),
{
    if s.len() == 0 {
        Seq::empty()
    } else if is_space(s[0]) {
        fields(s.drop_first())
    } else {
        proof {
            lemma_word_run_bound(s);
        }
        seq![s.take(word_run(s) as int)] + fields(s.skip(word_run(s) as int))
    }
}

/// The lines of a text, in order, each without its line feed. The empty text
/// has no line; a text that ends in a line feed has no empty last line.
pub open spec fn lines(s: Seq<u8>) -> Seq<Seq<u8>>
    decreases s.len(),
{
    if s.len() == 0 {
        Seq::empty()
    } else if line_run(s) < s.len() {
        seq![s.take(line_run(s) as int)] + lines(s.skip(line_run(s) as int + 1))
    } else {
        seq![s]
    }
}

/// What a vector of byte strings holds, as a sequence of byte sequences.
pub open spec fn byte_rows(v: Seq<Vec<u8>>) -> Seq<Seq<u8>> {
    Seq::new(v.len(), |i: int| v[i]@)
}

proof fn lemma_word_run(s: Seq<u8>, k: int)
    requires
        0 <= k <= s.len(),
        forall|j: int| 0 <= j < k ==> !is_space(s[j]),
        k < s.len() ==> is_space(s[k]),
    ensures
        word_run(s) == k,
    decreases k,
{
    if k > 0 {
        lemma_word_run(s.drop_first(), k - 1);
    }
}

proof fn lemma_line_run(s: Seq<u8>, k: int)
    requires
        0 <= k <= s.len(),
        forall|j: int| 0 <= j < k ==> s[j] != 10,
        k < s.len() ==> s[k] == 10,
    ensures
        line_run(s) == k,
    decreases k,
{
    if k > 0 {
        lemma_line_run(s.drop_first(), k - 1);
    }
}

/// A run of bytes before the first line feed is no longer than the text, and
/// holds no line feed.
proof fn lemma_line_run_bound(s: Seq<u8>)
    ensures
        line_run(s) <= s.len(),
        forall|j: int| 0 <= j < line_run(s) ==> s[j] != 10,
    decreases s.len(),
{
    if s.len() > 0 && s[0] != 10 {
        lemma_line_run_bound(s.drop_first());
        assert forall|j: int| 0 <= j < line_run(s) implies s[j] != 10 by {
            if j > 0 {
                assert(s[j] == s.drop_first()[j - 1]);
            }
        }
    }
}

/// A run of bytes that are not white space holds no white space.
proof fn lemma_word_run_holds_words(s: Seq<u8>)
    ensures
        forall|j: int| 0 <= j < word_run(s) ==> !is_space(s[j]),
    decreases s.len(),
{
    if s.len() > 0 && !is_space(s[0]) {
        lemma_word_run_holds_words(s.drop_first());
        lemma_word_run_bound(s);
        assert forall|j: int| 0 <= j < word_run(s) implies !is_space(s[j]) by {
            if j > 0 {
                assert(s[j] == s.drop_first()[j - 1]);
            }
        }
    }
}

/// Whether `f` is a word: at least one byte, and no white space.
pub open spec fn is_word(f: Seq<u8>) -> bool {
    f.len() > 0 && forall|j: int| 0 <= j < f.len() ==> !is_space(f[j])
}

/// Every field of a line is a word.
pub proof fn lemma_fields_are_words(s: Seq<u8>)
    ensures
        forall|i: int| 0 <= i < fields(s).len() ==> is_word(#[trigger] fields(s)[i]),
    decreases s.len(),
{
    if s.len() == 0 {
        assert(fields(s).len() == 0);
    } else if is_space(s[0]) {
        lemma_fields_are_words(s.drop_first());
        assert(fields(s) == fields(s.drop_first()));
    } else {
        let w = word_run(s) as int;
        lemma_word_run_bound(s);
        lemma_word_run_holds_words(s);
        lemma_fields_are_words(s.skip(w));
        let first = s.take(w);
        let rest = fields(s.skip(w));
        assert(fields(s) == seq![first] + rest);
        assert(is_word(first)) by {
            assert forall|j: int| 0 <= j < first.len() implies !is_space(first[j]) by {
                assert(first[j] == s[j]);
            }
        }
        assert forall|i: int| 0 <= i < fields(s).len() implies is_word(#[trigger] fields(s)[i]) by {
            if i > 0 {
                assert(fields(s)[i] == rest[i - 1]);
            } else {
                assert(fields(s)[0] == first);
            }
        }
    }
}

/// No line of a text holds a line feed.
pub proof fn lemma_lines_hold_no_line_feed(s: Seq<u8>)
    ensures
        forall|i: int, j: int|
            0 <= i < lines(s).len() && 0 <= j < lines(s)[i].len() ==> (#[trigger] lines(s)[i][j])
                != 10,
    decreases s.len(),
{
    if s.len() > 0 {
        let k = line_run(s) as int;
        lemma_line_run_bound(s);
        if k < s.len() {
            lemma_lines_hold_no_line_feed(s.skip(k + 1));
            let rest = lines(s.skip(k + 1));
            assert forall|i: int, j: int|
                0 <= i < lines(s).len() && 0 <= j < lines(s)[i].len() implies (#[trigger] lines(
                s,
            )[i][j]) != 10 by {
                if i > 0 {
                    assert(lines(s)[i] == rest[i - 1]);
                }
            }
        }
    }
}

/// Tells whether a byte is white space.
pub fn is_space_byte(b: u8) -> (space: bool)
    ensures
        space == is_space(b),
{
    b == 32 || (9 <= b && b <= 13)
}

/// Splits a line into its fields.
pub fn split_fields(line: &[u8]) -> (out: Vec<Vec<u8>>)
    ensures
        byte_rows(out@) == fields(line@),
{
    let n = line.len();
    let mut out: Vec<Vec<u8>> = Vec::new();
    let mut i: usize = 0;
    assert(line@.skip(0) =~= line@);
    assert(byte_rows(out@) =~= Seq::<Seq<u8>>::empty());
    while i < n
        invariant
            i <= n,
            n == line.len(),
            fields(line@) == byte_rows(out@) + fields(line@.skip(i as int)),
        decreases n - i,
    {
        let ghost rest = line@.skip(i as int);
        if is_space_byte(line[i]) {
            assert(rest.drop_first() =~= line@.skip(i + 1));
            i = i + 1;
        } else {
            let start = i;
            let mut word: Vec<u8> = Vec::new();
            while i < n && !is_space_byte(line[i])
                invariant
                    start <= i <= n,
                    n == line.len(),
                    word@ == line@.subrange(start as int, i as int),
                    forall|j: int| start <= j < i ==> !is_space(line@[j]),
                decreases n - i,
            {
                word.push(line[i]);
                i = i + 1;
                assert(word@ =~= line@.subrange(start as int, i as int));
            }
            proof {
                lemma_word_run(rest, i - start);
                assert(rest.take(i - start) =~= word@);
                assert(rest.skip(i - start) =~= line@.skip(i as int));
            }
            let ghost before = byte_rows(out@);
            out.push(word);
            assert(byte_rows(out@) =~= before + seq![word@]);
            assert(before + (seq![word@] + fields(line@.skip(i as int))) =~= before + seq![word@]
                + fields(line@.skip(i as int)));
        }
    }
    assert(line@.skip(n as int).len() == 0);
    assert(byte_rows(out@) + Seq::<Seq<u8>>::empty() =~= byte_rows(out@));
    out
}

/// Splits a text into its lines.
pub fn split_lines(text: &[u8]) -> (out: Vec<Vec<u8>>)
    ensures
        byte_rows(out@) == lines(text@),
{
    let n = text.len();
    let mut out: Vec<Vec<u8>> = Vec::new();
    let mut i: usize = 0;
    assert(text@.skip(0) =~= text@);
    assert(byte_rows(out@) =~= Seq::<Seq<u8>>::empty());
    while i < n
        invariant
            i <= n,
            n == text.len(),
            lines(text@) == byte_rows(out@) + lines(text@.skip(i as int)),
        decreases n - i,
    {
        let ghost rest = text@.skip(i as int);
        let start = i;
        let mut line: Vec<u8> = Vec::new();
        while i < n && text[i] != 10
            invariant
                start <= i <= n,
                n == text.len(),
                line@ == text@.subrange(start as int, i as int),
                forall|j: int| start <= j < i ==> text@[j] != 10,
            decreases n - i,
        {
            line.push(text[i]);
            i = i + 1;
            assert(line@ =~= text@.subrange(start as int, i as int));
        }
        proof {
            lemma_line_run(rest, i - start);
            assert(rest.take(i - start) =~= line@);
        }
        let ghost before = byte_rows(out@);
        out.push(line);
        assert(byte_rows(out@) =~= before + seq![line@]);
        if i < n {
            i = i + 1;
            assert(rest.skip(i - start) =~= text@.skip(i as int));
            assert(before + (seq![line@] + lines(text@.skip(i as int))) =~= before + seq![line@]
                + lines(text@.skip(i as int)));
        } else {
            assert(rest =~= line@);
            assert(text@.skip(i as int).len() == 0);
            assert(before + seq![line@] + Seq::<Seq<u8>>::empty() =~= before + seq![line@]);
        }
    }
    assert(text@.skip(n as int).len() == 0);
    assert(byte_rows(out@) + Seq::<Seq<u8>>::empty() =~= byte_rows(out@));
    out
}

} // verus!
