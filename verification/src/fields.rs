//! The fields of a line: what stands between its spaces.

use vstd::prelude::*;

verus! {

/// The characters that part the fields of a line: space, tab, line feed,
/// form feed and carriage return.
pub open spec fn is_space(c: char) -> bool {
    c == ' ' || c == '\t' || c == '\n' || c == '\x0c' || c == '\r'
}

/// The run of characters other than spaces that `s` ends in; empty where `s`
/// is empty or ends in a space.
pub open spec fn open_field(s: Seq<char>) -> Seq<char>
    decreases s.len(),
{
    if s.len() == 0 || is_space(s.last()) {
        Seq::empty()
    } else {
        open_field(s.drop_last()).push(s.last())
    }
}

/// The fields of `s` that a space has closed, in order.
pub open spec fn closed_fields(s: Seq<char>) -> Seq<Seq<char>>
    decreases s.len(),
{
    if s.len() == 0 {
        Seq::empty()
    } else {
        let before = s.drop_last();
        if is_space(s.last()) && open_field(before).len() > 0 {
            closed_fields(before).push(open_field(before))
        } else {
            closed_fields(before)
        }
    }
}

/// The fields of a line: its longest runs of characters other than spaces,
/// in order.
pub open spec fn fields(s: Seq<char>) -> Seq<Seq<char>> {
    if open_field(s).len() > 0 {
        closed_fields(s).push(open_field(s))
    } else {
        closed_fields(s)
    }
}

fn is_space_char(c: char) -> (r: bool)
    ensures
        r == is_space(c),
{
    c == ' ' || c == '\t' || c == '\n' || c == '\x0c' || c == '\r'
}

/// Splits a line into its fields.
pub fn split_fields(line: &str) -> (found: Vec<String>)
    ensures
        found.deep_view() == fields(line@),
{
    let mut found: Vec<String> = Vec::new();
    let len: usize = line.unicode_len();
    let mut start: usize = 0;
    let mut at: usize = 0;
    for c in it: line.chars()
        invariant
            it.seq() == line@,
            len == line@.len(),
            at == it.index(),
            start <= at <= len,
            found.deep_view() =~= closed_fields(line@.take(at as int)),
            open_field(line@.take(at as int)) =~= line@.subrange(start as int, at as int),
    {
        assert(line@.take(at + 1).drop_last() =~= line@.take(at as int));
        if is_space_char(c) {
            if start < at {
                found.push(line.substring_char(start, at).to_owned());
            }
            start = at + 1;
        }
        at = at + 1;
    }
    assert(line@.take(len as int) =~= line@);
    if start < at {
        found.push(line.substring_char(start, at).to_owned());
    }
    found
}

/// A word is one or more characters, none of them a space.
pub open spec fn is_word(field: Seq<char>) -> bool {
    field.len() > 0 && forall|j: int| 0 <= j < field.len() ==> !is_space(#[trigger] field[j])
}

/// Every field of a line is a word.
pub proof fn lemma_fields_are_words(s: Seq<char>)
    ensures
        forall|i: int| 0 <= i < fields(s).len() ==> is_word(#[trigger] fields(s)[i]),
{
    lemma_closed_fields_are_words(s);
    lemma_open_field_holds_no_space(s);
}

proof fn lemma_open_field_holds_no_space(s: Seq<char>)
    ensures
        open_field(s).len() > 0 ==> is_word(open_field(s)),
    decreases s.len(),
{
    if s.len() > 0 && !is_space(s.last()) {
        let before = open_field(s.drop_last());
        lemma_open_field_holds_no_space(s.drop_last());
        assert forall|j: int| 0 <= j < open_field(s).len() implies !is_space(
            #[trigger] open_field(s)[j],
        ) by {
            if j < before.len() {
                assert(open_field(s)[j] == before[j]);
            }
        }
    }
}

proof fn lemma_closed_fields_are_words(s: Seq<char>)
    ensures
        forall|i: int| 0 <= i < closed_fields(s).len() ==> is_word(#[trigger] closed_fields(s)[i]),
    decreases s.len(),
{
    if s.len() > 0 {
        let before = closed_fields(s.drop_last());
        lemma_closed_fields_are_words(s.drop_last());
        lemma_open_field_holds_no_space(s.drop_last());
        assert forall|i: int| 0 <= i < closed_fields(s).len() implies is_word(
            #[trigger] closed_fields(s)[i],
        ) by {
            if i < before.len() {
                assert(closed_fields(s)[i] == before[i]);
            }
        }
    }
}

/// Characters other than spaces lengthen the field that is open and close
/// none.
pub proof fn lemma_word_lengthens_open_field(s: Seq<char>, word: Seq<char>)
    requires
        forall|j: int| 0 <= j < word.len() ==> !is_space(#[trigger] word[j]),
    ensures
        open_field(s + word) == open_field(s) + word,
        closed_fields(s + word) == closed_fields(s),
    decreases word.len(),
{
    if word.len() == 0 {
        assert(s + word =~= s);
        assert(open_field(s) + word =~= open_field(s));
    } else {
        let shorter = word.drop_last();
        lemma_word_lengthens_open_field(s, shorter);
        assert((s + word).drop_last() =~= s + shorter);
        assert((s + word).last() == word.last());
        assert(open_field(s + shorter).push(word.last()) =~= open_field(s) + word);
    }
}

/// A space closes the field that is open: the fields stay as they are, and
/// the word that follows the space is a field of its own.
pub proof fn lemma_word_after_space_is_a_field(s: Seq<char>, space: char, word: Seq<char>)
    requires
        is_space(space),
        is_word(word),
    ensures
        fields(s.push(space)) == fields(s),
        fields(s.push(space) + word) == fields(s).push(word),
{
    assert(s.push(space).drop_last() =~= s);
    lemma_word_lengthens_open_field(s.push(space), word);
    assert(Seq::<char>::empty() + word =~= word);
}

/// A word alone is its own and only field.
pub proof fn lemma_word_is_one_field(word: Seq<char>)
    requires
        is_word(word),
    ensures
        fields(word) == seq![word],
{
    lemma_word_lengthens_open_field(Seq::empty(), word);
    assert(Seq::<char>::empty() + word =~= word);
    assert(fields(word) =~= seq![word]);
}

} // verus!
