//! Scanning message text for mention tokens: `<@` followed by a 26-character
//! identifier over the base-32 alphabet `0-9 A-Z` without `I`, `L`, `O`, `U`,
//! then `>`. Only the leftmost token is taken.
use vstd::prelude::*;
use vstd::string::*;

use crate::draft::texts;

verus! {

/// Length of an identifier inside a mention token.
pub const ID_LEN: usize = 26;

/// Length of a whole mention token: `<@`, the identifier, `>`.
pub const TOKEN_LEN: usize = 29;

/// A character of the identifier alphabet.
pub open spec fn is_id_char(c: char) -> bool {
    ('0' <= c && c <= '9') || ('A' <= c && c <= 'Z' && c != 'I' && c != 'L' && c != 'O'
        && c != 'U')
}

/// A well-formed identifier: 26 characters of the alphabet.
pub open spec fn is_id(s: Seq<char>) -> bool {
    s.len() == ID_LEN && forall|k: int| 0 <= k < s.len() ==> is_id_char(#[trigger] s[k])
}

/// A mention token starts at position `i` of `s`.
pub open spec fn mention_at(s: Seq<char>, i: int) -> bool {
    &&& 0 <= i
    &&& i + TOKEN_LEN <= s.len()
    &&& s[i] == '<'
    &&& s[i + 1] == '@'
    &&& is_id(s.subrange(i + 2, i + 2 + ID_LEN))
    &&& s[i + 2 + ID_LEN] == '>'
}

/// `i` is the leftmost position where a mention token starts.
pub open spec fn first_mention(s: Seq<char>, i: int) -> bool {
    mention_at(s, i) && forall|j: int| 0 <= j < i ==> !mention_at(s, j)
}

/// The identifiers mentioned by `s`: the one of the leftmost token, or none.
pub open spec fn mentions_of(s: Seq<char>) -> Seq<Seq<char>> {
    if exists|i: int| first_mention(s, i) {
        let i = choose|i: int| first_mention(s, i);
        seq![s.subrange(i + 2, i + 2 + ID_LEN)]
    } else {
        Seq::empty()
    }
}

/// There is at most one leftmost token.
pub proof fn lemma_first_mention_unique(s: Seq<char>, i: int, j: int)
    requires
        first_mention(s, i),
        first_mention(s, j),
    ensures
        i == j,
{
    if i < j {
        assert(!mention_at(s, i));
    } else if j < i {
        assert(!mention_at(s, j));
    }
}

/// Whether `c` belongs to the identifier alphabet.
pub fn is_id_char_exec(c: char) -> (r: bool)
    ensures
        r == is_id_char(c),
{
    ('0' <= c && c <= '9') || ('A' <= c && c <= 'Z' && c != 'I' && c != 'L' && c != 'O'
        && c != 'U')
}

/// The characters of `s`, in order.
pub fn chars_of(s: &str) -> (r: Vec<char>)
    ensures
        r@ == s@,
{
    let n = s.unicode_len();
    let mut r: Vec<char> = Vec::new();
    let mut i: usize = 0;
    while i < n
        invariant
            n == s@.len(),
            i <= n,
            r@ == s@.subrange(0, i as int),
        decreases n - i,
    {
        let c = s.get_char(i);
        r.push(c);
        i = i + 1;
        assert(r@ =~= s@.subrange(0, i as int));
    }
    assert(r@ =~= s@);
    r
}

/// Whether a mention token starts at position `i` of `cs`.
pub fn mention_at_exec(cs: &Vec<char>, i: usize) -> (r: bool)
    ensures
        r == mention_at(cs@, i as int),
{
    if cs.len() < TOKEN_LEN || i > cs.len() - TOKEN_LEN {
        return false;
    }
    if cs[i] != '<' || cs[i + 1] != '@' || cs[i + 2 + ID_LEN] != '>' {
        return false;
    }
    let mut k: usize = 0;
    while k < ID_LEN
        invariant
            i + TOKEN_LEN <= cs.len(),
            k <= ID_LEN,
            forall|m: int| 0 <= m < k ==> is_id_char(#[trigger] cs@[i + 2 + m]),
        decreases ID_LEN - k,
    {
        if !is_id_char_exec(cs[i + 2 + k]) {
            assert(cs@.subrange(i + 2, i + 2 + ID_LEN)[k as int] == cs@[i + 2 + k]);
            return false;
        }
        k = k + 1;
    }
    assert forall|m: int| 0 <= m < ID_LEN implies is_id_char(
        #[trigger] cs@.subrange(i + 2, i + 2 + ID_LEN)[m],
    ) by {
        assert(cs@.subrange(i + 2, i + 2 + ID_LEN)[m] == cs@[i + 2 + m]);
    }
    true
}

/// The leftmost position of `cs` where a mention token starts, if any.
pub fn find_first_mention(cs: &Vec<char>) -> (r: Option<usize>)
    ensures
        r matches Some(i) ==> first_mention(cs@, i as int),
        r is None ==> forall|j: int| !mention_at(cs@, j),
{
    let mut i: usize = 0;
    while i < cs.len()
        invariant
            i <= cs@.len(),
            forall|j: int| 0 <= j < i ==> !mention_at(cs@, j),
        decreases cs@.len() - i,
    {
        if mention_at_exec(cs, i) {
            return Some(i);
        }
        i = i + 1;
    }
    None
}

/// The identifiers mentioned in `content`: that of the leftmost mention token,
/// or nothing when the text holds none.
pub fn extract_mentions(content: &str) -> (r: Vec<String>)
    ensures
        texts(r@) == mentions_of(content@),
{
    let cs = chars_of(content);
    let len = cs.len();
    let mut r: Vec<String> = Vec::new();
    match find_first_mention(&cs) {
        Some(i) => {
            let id = content.substring_char(i + 2, i + 2 + ID_LEN).to_owned();
            r.push(id);
            proof {
                assert(len == content@.len());
                assert(first_mention(content@, i as int));
                let c = choose|c: int| first_mention(content@, c);
                lemma_first_mention_unique(content@, i as int, c);
            }
            assert(texts(r@) =~= mentions_of(content@));
        },
        None => {
            assert(!exists|i: int| first_mention(content@, i));
            assert(texts(r@) =~= mentions_of(content@));
        },
    }
    r
}

} // verus!
