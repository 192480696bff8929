use vstd::prelude::*;

use crate::text::{chars_of, push_char};

verus! {

/// The position of the first `c` in the text, if there is one.
pub open spec fn first_index(text: Seq<char>, c: char) -> Option<int> {
    if exists|i: int| 0 <= i < text.len() && text[i] == c {
        Some(
            choose|i: int|
                0 <= i < text.len() && text[i] == c && forall|j: int|
                    0 <= j < i ==> #[trigger] text[j] != c,
        )
    } else {
        None
    }
}

/// The text before and after the first `c`, if there is one.
pub open spec fn split_once(text: Seq<char>, c: char) -> Option<(Seq<char>, Seq<char>)> {
    match first_index(text, c) {
        Some(i) => Some((text.take(i), text.skip(i + 1))),
        None => None,
    }
}

/// The first `c` is at `i` when `c` is at `i` and nowhere before.
pub proof fn lemma_first_index(text: Seq<char>, c: char, i: int)
    requires
        0 <= i < text.len(),
        text[i] == c,
        forall|j: int| 0 <= j < i ==> text[j] != c,
    ensures
        first_index(text, c) == Some(i),
{
    let k = choose|k: int|
        0 <= k < text.len() && text[k] == c && forall|j: int| 0 <= j < k ==> #[trigger] text[j] != c;
    assert(0 <= k < text.len() && text[k] == c && forall|j: int| 0 <= j < k ==> #[trigger] text[j] != c) by {
        assert(forall|j: int| 0 <= j < i ==> #[trigger] text[j] != c);
    }
    if k < i {
        assert(text[k] != c);
    }
    if i < k {
        assert(text[i] != c);
    }
}

/// The position of the first `c` at or after `from`, if there is one.
pub fn find_char(chars: &Vec<char>, from: usize, c: char) -> (r: Option<usize>)
    requires
        from <= chars@.len(),
    ensures
        match r {
            Some(j) => from <= j < chars@.len() && chars@[j as int] == c && forall|k: int|
                from <= k < j ==> chars@[k] != c,
            None => forall|k: int| from <= k < chars@.len() ==> chars@[k] != c,
        },
{
    let mut j = from;
    while j < chars.len()
        invariant
            from <= j <= chars@.len(),
            forall|k: int| from <= k < j ==> chars@[k] != c,
        decreases chars@.len() - j,
    {
        if chars[j] == c {
            return Some(j);
        }
        j = j + 1;
    }
    None
}

/// The first `c` in the part of the text from `from` on.
pub proof fn lemma_find_in_rest(chars: Seq<char>, from: int, c: char, found: Option<int>)
    requires
        0 <= from <= chars.len(),
        match found {
            Some(j) => from <= j < chars.len() && chars[j] == c && forall|k: int|
                from <= k < j ==> chars[k] != c,
            None => forall|k: int| from <= k < chars.len() ==> chars[k] != c,
        },
    ensures
        first_index(chars.skip(from), c) == match found {
            Some(j) => Some(j - from),
            None => None::<int>,
        },
{
    let rest = chars.skip(from);
    match found {
        Some(j) => {
            assert forall|k: int| 0 <= k < j - from implies rest[k] != c by {
                assert(rest[k] == chars[from + k]);
            }
            lemma_first_index(rest, c, j - from);
        },
        None => {
            if exists|i: int| 0 <= i < rest.len() && rest[i] == c {
                let i = choose|i: int| 0 <= i < rest.len() && rest[i] == c;
                assert(rest[i] == chars[from + i]);
            }
        },
    }
}

/// The text of the characters from `from` up to `to`.
pub fn text_between(chars: &Vec<char>, from: usize, to: usize) -> (r: String)
    requires
        from <= to <= chars@.len(),
    ensures
        r@ == chars@.subrange(from as int, to as int),
{
    let mut text = String::new();
    let mut i = from;
    while i < to
        invariant
            from <= i <= to <= chars@.len(),
            text@ == chars@.subrange(from as int, i as int),
        decreases to - i,
    {
        push_char(&mut text, chars[i]);
        assert(chars@.subrange(from as int, i + 1) =~= chars@.subrange(from as int, i as int).push(
            chars@[i as int],
        ));
        i = i + 1;
    }
    text
}

/// Splits a text at its first `c`.
pub fn split_once_at(text: &str, c: char) -> (r: Option<(String, String)>)
    ensures
        match (r, split_once(text@, c)) {
            (Some((before, after)), Some((b, a))) => before@ == b && after@ == a,
            (None, None) => true,
            _ => false,
        },
{
    let chars = chars_of(text);
    let n = chars.len();
    let found = find_char(&chars, 0, c);
    proof {
        let f = match found {
            Some(j) => Some(j as int),
            None => None::<int>,
        };
        lemma_find_in_rest(chars@, 0, c, f);
        assert(chars@.skip(0) =~= chars@);
    }
    match found {
        Some(j) => {
            let before = text_between(&chars, 0, j);
            let after = text_between(&chars, j + 1, n);
            proof {
                assert(before@ =~= text@.take(j as int));
                assert(after@ =~= text@.skip(j + 1));
            }
            Some((before, after))
        },
        None => None,
    }
}

} // verus!
