//! Texts as sequences of characters.

use vstd::prelude::*;

verus! {

/// The characters of `text`, in order.
pub fn chars_of(text: &str) -> (chars: Vec<char>)
    ensures
        chars@ == text@,
{
    broadcast use vstd::string::axiom_spec_iter;

    let mut chars: Vec<char> = Vec::new();
    for c in it: text.chars()
        invariant
            it.seq() == text@,
            chars@ == it.seq().take(it.index() as int),
    {
        chars.push(c);
        assert(it.seq().take(it.index() + 1) =~= it.seq().take(it.index() as int).push(c));
    }
    assert(chars@ =~= text@);
    chars
}

/// Trusted: `String::push` appends one character, as std documents it.
pub assume_specification[ String::push ](text: &mut String, ch: char)
    ensures
        final(text)@ == old(text)@.push(ch),
;

/// The string that spells `chars`.
pub fn string_of(chars: &Vec<char>) -> (text: String)
    ensures
        text@ == chars@,
{
    let mut text = String::new();
    let mut i: usize = 0;
    while i < chars.len()
        invariant
            0 <= i <= chars@.len(),
            text@ == chars@.take(i as int),
        decreases chars@.len() - i,
    {
        text.push(chars[i]);
        assert(chars@.take(i + 1) =~= chars@.take(i as int).push(chars@[i as int]));
        i += 1;
    }
    assert(chars@.take(chars@.len() as int) =~= chars@);
    text
}

/// The character at position `i`.
pub fn char_at(chars: &Vec<char>, i: usize) -> (ch: char)
    requires
        i < chars@.len(),
    ensures
        ch == chars@[i as int],
{
    chars[i]
}

/// Whether two texts are the same.
pub fn same_chars(a: &Vec<char>, b: &Vec<char>) -> (same: bool)
    ensures
        same == (a@ == b@),
{
    if a.len() != b.len() {
        return false;
    }
    let mut i: usize = 0;
    while i < a.len()
        invariant
            a@.len() == b@.len(),
            0 <= i <= a@.len(),
            forall|k: int| 0 <= k < i ==> a@[k] == b@[k],
        decreases a@.len() - i,
    {
        if a[i] != b[i] {
            return false;
        }
        i += 1;
    }
    assert(a@ =~= b@);
    true
}

/// Whether the characters from `start` on spell `word`.
pub fn tail_is(chars: &Vec<char>, start: usize, word: &str) -> (same: bool)
    requires
        start <= chars@.len(),
    ensures
        same == (chars@.subrange(start as int, chars@.len() as int) == word@),
{
    let wanted = chars_of(word);
    let ghost tail = chars@.subrange(start as int, chars@.len() as int);
    if chars.len() - start != wanted.len() {
        return false;
    }
    let mut k: usize = 0;
    while k < wanted.len()
        invariant
            start + wanted@.len() == chars@.len() <= usize::MAX,
            wanted@ == word@,
            tail == chars@.subrange(start as int, chars@.len() as int),
            0 <= k <= wanted@.len(),
            forall|j: int| 0 <= j < k ==> tail[j] == wanted@[j],
        decreases wanted@.len() - k,
    {
        if chars[start + k] != wanted[k] {
            assert(tail[k as int] != wanted@[k as int]);
            return false;
        }
        k += 1;
    }
    assert(tail =~= wanted@);
    true
}

/// The code points with the Unicode property `White_Space`.
pub open spec fn is_whitespace(ch: char) -> bool {
    let code = ch as int;
    ||| 0x09 <= code <= 0x0D
    ||| code == 0x20
    ||| code == 0x85
    ||| code == 0xA0
    ||| code == 0x1680
    ||| 0x2000 <= code <= 0x200A
    ||| code == 0x2028
    ||| code == 0x2029
    ||| code == 0x202F
    ||| code == 0x205F
    ||| code == 0x3000
}

/// Whether `ch` is white space. White space moves the pen but is never drawn.
pub fn char_is_whitespace(ch: char) -> (white: bool)
    ensures
        white == is_whitespace(ch),
{
    let code: u32 = ch as u32;
    (0x09 <= code && code <= 0x0D) || code == 0x20 || code == 0x85 || code == 0xA0 || code
        == 0x1680 || (0x2000 <= code && code <= 0x200A) || code == 0x2028 || code == 0x2029
        || code == 0x202F || code == 0x205F || code == 0x3000
}

/// `chars` is in strictly increasing order of code points, so nothing occurs
/// in it twice.
pub open spec fn strictly_increasing(chars: Seq<char>) -> bool {
    forall|i: int, j: int| 0 <= i < j < chars.len() ==> chars[i] < chars[j]
}

/// `unique` holds exactly the characters of `text` that are not white space.
pub open spec fn holds_visible_chars(unique: Seq<char>, text: Seq<char>) -> bool {
    forall|ch: char|
        #![trigger unique.contains(ch)]
        #![trigger text.contains(ch)]
        unique.contains(ch) <==> (text.contains(ch) && !is_whitespace(ch))
}

/// Reading one more character that is white space, or that is already held,
/// changes nothing.
proof fn lemma_visible_skip(unique: Seq<char>, seen: Seq<char>, ch: char)
    requires
        holds_visible_chars(unique, seen),
        is_whitespace(ch) || unique.contains(ch),
    ensures
        holds_visible_chars(unique, seen.push(ch)),
{
    let longer = seen.push(ch);
    assert forall|c: char|
        #![trigger unique.contains(c)]
        #![trigger longer.contains(c)]
        unique.contains(c) <==> (longer.contains(c) && !is_whitespace(c)) by {
        if longer.contains(c) {
            let k = choose|k: int| 0 <= k < longer.len() && longer[k] == c;
            if k < seen.len() {
                assert(seen[k] == c);
            }
        }
        if unique.contains(c) {
            assert(seen.contains(c));
            let k = choose|k: int| 0 <= k < seen.len() && seen[k] == c;
            assert(longer[k] == c);
        }
    }
}

/// Reading one more character that is visible and new adds it, wherever it is
/// put.
proof fn lemma_visible_insert(unique: Seq<char>, seen: Seq<char>, ch: char, at: int)
    requires
        holds_visible_chars(unique, seen),
        !is_whitespace(ch),
        0 <= at <= unique.len(),
    ensures
        holds_visible_chars(unique.insert(at, ch), seen.push(ch)),
{
    let longer = seen.push(ch);
    let after = unique.insert(at, ch);
    assert(longer[seen.len() as int] == ch);
    assert(after[at] == ch);
    assert forall|c: char|
        #![trigger after.contains(c)]
        #![trigger longer.contains(c)]
        after.contains(c) <==> (longer.contains(c) && !is_whitespace(c)) by {
        if after.contains(c) && c != ch {
            let k = choose|k: int| 0 <= k < after.len() && after[k] == c;
            let pk = if k < at { k } else { k - 1 };
            assert(unique[pk] == c);
            assert(unique.contains(c));
            assert(seen.contains(c));
            let m = choose|m: int| 0 <= m < seen.len() && seen[m] == c;
            assert(longer[m] == c);
        }
        if longer.contains(c) && !is_whitespace(c) && c != ch {
            let k = choose|k: int| 0 <= k < longer.len() && longer[k] == c;
            assert(seen[k] == c);
            assert(seen.contains(c));
            assert(unique.contains(c));
            let m = choose|m: int| 0 <= m < unique.len() && unique[m] == c;
            let am = if m < at { m } else { m + 1 };
            assert(after[am] == c);
        }
    }
}

/// Putting `ch` between what is smaller and what is larger keeps the order.
proof fn lemma_sorted_insert(unique: Seq<char>, ch: char, at: int)
    requires
        strictly_increasing(unique),
        0 <= at <= unique.len(),
        forall|k: int| 0 <= k < at ==> unique[k] < ch,
        at < unique.len() ==> ch < unique[at],
    ensures
        strictly_increasing(unique.insert(at, ch)),
{
    let after = unique.insert(at, ch);
    assert forall|a: int, b: int| 0 <= a < b < after.len() implies after[a] < after[b] by {
        let pa = if a < at { a } else { a - 1 };
        let pb = if b < at { b } else { b - 1 };
        if a != at && b != at {
            assert(unique[pa] == after[a]);
            assert(unique[pb] == after[b]);
        } else if a == at {
            assert(unique[pb] == after[b]);
            assert(at <= pb);
        } else {
            assert(unique[pa] == after[a]);
        }
    }
}

/// The distinct characters of `text` that are not white space, sorted by code
/// point.
pub fn unique_chars(text: &Vec<char>) -> (unique: Vec<char>)
    ensures
        strictly_increasing(unique@),
        holds_visible_chars(unique@, text@),
{
    let mut unique: Vec<char> = Vec::new();
    let mut i: usize = 0;
    while i < text.len()
        invariant
            0 <= i <= text@.len(),
            strictly_increasing(unique@),
            holds_visible_chars(unique@, text@.take(i as int)),
            unique@.len() <= i,
        decreases text@.len() - i,
    {
        let ch = text[i];
        let ghost seen = text@.take(i as int);
        assert(text@.take(i + 1) =~= seen.push(ch));
        if char_is_whitespace(ch) {
            proof {
                lemma_visible_skip(unique@, seen, ch);
            }
        } else {
            let mut at: usize = 0;
            while at < unique.len() && unique[at] < ch
                invariant
                    0 <= at <= unique@.len(),
                    forall|k: int| 0 <= k < at ==> unique@[k] < ch,
                decreases unique@.len() - at,
            {
                at += 1;
            }
            if at < unique.len() && unique[at] == ch {
                proof {
                    lemma_visible_skip(unique@, seen, ch);
                }
            } else {
                proof {
                    lemma_visible_insert(unique@, seen, ch, at as int);
                    lemma_sorted_insert(unique@, ch, at as int);
                }
                unique.insert(at, ch);
            }
        }
        i += 1;
    }
    assert(text@.take(text@.len() as int) =~= text@);
    unique
}

} // verus!
