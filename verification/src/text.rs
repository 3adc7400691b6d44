//! Looking for the last occurrence of a character in a text.

use vstd::prelude::*;
use vstd::string::StrSliceExecFns;

verus! {

/// The place of the last `mark` in a text, or -1 where it has none.
pub open spec fn last_index(text: Seq<char>, mark: char) -> int
    decreases text.len(),
{
    if text.len() == 0 {
        -1
    } else if text.last() == mark {
        text.len() - 1
    } else {
        last_index(text.drop_last(), mark)
    }
}

/// What follows the last `mark` in a text: the whole text where it has
/// none.
pub open spec fn tail_after(text: Seq<char>, mark: char) -> Seq<char> {
    text.subrange(last_index(text, mark) + 1, text.len() as int)
}

/// The last `mark` is the one after which none follows.
pub proof fn lemma_last_index(text: Seq<char>, mark: char, at: int)
    requires
        -1 <= at < text.len(),
        at >= 0 ==> text[at] == mark,
        forall|j: int| at < j < text.len() ==> text[j] != mark,
    ensures
        last_index(text, mark) == at,
    decreases text.len(),
{
    if text.len() > 0 && at < text.len() - 1 {
        lemma_last_index(text.drop_last(), mark, at);
    }
}

/// The last `mark` of a text lies within it, is a `mark`, and no `mark`
/// follows it.
pub proof fn lemma_last_index_is_last(text: Seq<char>, mark: char)
    ensures
        -1 <= last_index(text, mark) < text.len(),
        last_index(text, mark) >= 0 ==> text[last_index(text, mark)] == mark,
        forall|j: int| last_index(text, mark) < j < text.len() ==> text[j] != mark,
    decreases text.len(),
{
    if text.len() > 0 && text.last() != mark {
        let rest = text.drop_last();
        lemma_last_index_is_last(rest, mark);
        assert forall|j: int| last_index(text, mark) < j < text.len() implies text[j] != mark by {
            if j < rest.len() {
                assert(rest[j] == text[j]);
            }
        }
    }
}

/// What follows the last `mark` of a text holds no `mark`, and the text
/// ends with it.
pub proof fn lemma_tail_after(text: Seq<char>, mark: char)
    ensures
        tail_after(text, mark).len() == text.len() - 1 - last_index(text, mark),
        forall|j: int|
            0 <= j < tail_after(text, mark).len() ==> {
                &&& #[trigger] tail_after(text, mark)[j] != mark
                &&& tail_after(text, mark)[j] == text[last_index(text, mark) + 1 + j]
            },
{
    lemma_last_index_is_last(text, mark);
}

/// Finds the place just after the last `mark` of a text; 0 where the text
/// has no `mark`.
pub fn after_last(text: &str, mark: char) -> (after: usize)
    ensures
        after == last_index(text@, mark) + 1,
        after <= text@.len(),
{
    let len: usize = text.unicode_len();
    let mut after: usize = len;
    while after > 0 && text.get_char(after - 1) != mark
        invariant
            after <= len,
            len == text@.len(),
            forall|j: int| after <= j < len ==> text@[j] != mark,
        decreases after,
    {
        after = after - 1;
    }
    proof {
        lemma_last_index(text@, mark, after - 1);
    }
    after
}

/// Copies what follows the last `mark` of a text.
pub fn copy_tail_after(text: &str, mark: char) -> (tail: String)
    ensures
        tail@ == tail_after(text@, mark),
{
    let from = after_last(text, mark);
    let len = text.unicode_len();
    text.substring_char(from, len).to_owned()
}

} // verus!
