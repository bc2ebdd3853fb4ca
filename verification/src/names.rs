//! Generic-aware shortening of fully-qualified type names.
//!
//! A name such as `a::b::Handle<c::d::Material>` is rendered as
//! `Handle<Material>`: the last path segment is kept and the interior of the
//! outermost generic argument list is shortened recursively.

use vstd::prelude::*;

verus! {

/// Positions `i` and `i + 1` of `s` hold the namespace separator `::`.
pub open spec fn sep_at(s: Seq<char>, i: int) -> bool {
    &&& 0 <= i
    &&& i + 2 <= s.len()
    &&& s[i] == ':'
    &&& s[i + 1] == ':'
}

pub open spec fn has_sep(s: Seq<char>) -> bool {
    exists|i: int| sep_at(s, i)
}

/// The start of the last `::` in `s`; meaningful only when `has_sep(s)`.
pub open spec fn last_sep(s: Seq<char>) -> int {
    choose|i: int| sep_at(s, i) && (forall|j: int| i < j ==> !sep_at(s, j))
}

/// The suffix of `s` after its last `::`, or `s` itself when it has none.
pub open spec fn tail_after_last_sep(s: Seq<char>) -> Seq<char> {
    if has_sep(s) {
        s.subrange(last_sep(s) + 2, s.len() as int)
    } else {
        s
    }
}

pub open spec fn has_lt(s: Seq<char>) -> bool {
    exists|i: int| 0 <= i < s.len() && s[i] == '<'
}

/// The index of the first `<` in `s`; meaningful only when `has_lt(s)`.
pub open spec fn first_lt(s: Seq<char>) -> int {
    choose|i: int|
        0 <= i < s.len() && s[i] == '<' && (forall|j: int| 0 <= j < i ==> s[j] != '<')
}

pub open spec fn has_gt(s: Seq<char>) -> bool {
    exists|i: int| 0 <= i < s.len() && s[i] == '>'
}

/// The index of the last `>` in `s`; meaningful only when `has_gt(s)`.
pub open spec fn last_gt(s: Seq<char>) -> int {
    choose|i: int|
        0 <= i < s.len() && s[i] == '>' && (forall|j: int| i < j < s.len() ==> s[j] != '>')
}

/// A name the shortener accepts: either it has no `<` at all, or its first
/// `<` is followed (not necessarily adjacently) by a last `>`, and the
/// interior between the two is itself well formed.
pub open spec fn wf_name(s: Seq<char>) -> bool
    decreases s.len(),
{
    if !has_lt(s) {
        true
    } else if has_gt(s) && 0 <= first_lt(s) && first_lt(s) < last_gt(s) && last_gt(s)
        < s.len() {
        wf_name(s.subrange(first_lt(s) + 1, last_gt(s)))
    } else {
        false
    }
}

/// What `short_name` returns.  Without generics the name is cut after its
/// last `::`; with generics the part before the first `<` is cut the same
/// way, the interior up to the last `>` is shortened recursively, and
/// whatever follows the last `>` is kept.
pub open spec fn shorten_spec(s: Seq<char>) -> Seq<char>
    decreases s.len(),
{
    if !has_lt(s) {
        tail_after_last_sep(s)
    } else if has_gt(s) && 0 <= first_lt(s) && first_lt(s) < last_gt(s) && last_gt(s)
        < s.len() {
        let i = first_lt(s);
        let j = last_gt(s);
        tail_after_last_sep(s.subrange(0, i)) + seq!['<'] + shorten_spec(
            s.subrange(i + 1, j),
        ) + seq!['>'] + s.subrange(j + 1, s.len() as int)
    } else {
        s
    }
}

proof fn lemma_first_lt_unique(s: Seq<char>, k: int)
    requires
        0 <= k < s.len(),
        s[k] == '<',
        forall|j: int| 0 <= j < k ==> s[j] != '<',
    ensures
        has_lt(s),
        first_lt(s) == k,
{
    assert(has_lt(s));
    let f = first_lt(s);
    assert(0 <= f < s.len() && s[f] == '<' && (forall|j: int| 0 <= j < f ==> s[j] != '<'));
    if f < k {
        assert(s[f] != '<');
    }
    if k < f {
        assert(s[k] != '<');
    }
}

proof fn lemma_last_gt_unique(s: Seq<char>, k: int)
    requires
        0 <= k < s.len(),
        s[k] == '>',
        forall|j: int| k < j < s.len() ==> s[j] != '>',
    ensures
        has_gt(s),
        last_gt(s) == k,
{
    assert(has_gt(s));
    let l = last_gt(s);
    assert(0 <= l < s.len() && s[l] == '>' && (forall|j: int| l < j < s.len() ==> s[j] != '>'));
    if l < k {
        assert(s[k] != '>');
    }
    if k < l {
        assert(s[l] != '>');
    }
}

proof fn lemma_last_sep_unique(s: Seq<char>, k: int)
    requires
        sep_at(s, k),
        forall|j: int| k < j ==> !sep_at(s, j),
    ensures
        has_sep(s),
        last_sep(s) == k,
{
    assert(has_sep(s));
    let l = last_sep(s);
    assert(sep_at(s, l) && (forall|j: int| l < j ==> !sep_at(s, j)));
    if l < k {
        assert(!sep_at(s, k));
    }
    if k < l {
        assert(!sep_at(s, l));
    }
}

/// Index of the first `<` of `s`, if any.
fn find_first_lt(s: &str) -> (r: Option<usize>)
    ensures
        match r {
            Some(i) => has_lt(s@) && i == first_lt(s@) && i < s@.len(),
            None => !has_lt(s@),
        },
{
    let n = s.unicode_len();
    let mut k: usize = 0;
    while k < n
        invariant
            k <= n,
            n == s@.len(),
            forall|j: int| 0 <= j < k ==> s@[j] != '<',
        decreases n - k,
    {
        if s.get_char(k) == '<' {
            proof {
                lemma_first_lt_unique(s@, k as int);
            }
            return Some(k);
        }
        k += 1;
    }
    None
}

/// Index of the last `>` of `s`, if any.
fn find_last_gt(s: &str) -> (r: Option<usize>)
    ensures
        match r {
            Some(i) => has_gt(s@) && i == last_gt(s@) && i < s@.len(),
            None => !has_gt(s@),
        },
{
    let n = s.unicode_len();
    let mut k: usize = n;
    while k > 0
        invariant
            k <= n,
            n == s@.len(),
            forall|j: int| k <= j < n ==> s@[j] != '>',
        decreases k,
    {
        k -= 1;
        if s.get_char(k) == '>' {
            proof {
                lemma_last_gt_unique(s@, k as int);
            }
            return Some(k);
        }
    }
    None
}

/// Start of the last `::` of `s`, if any.
fn find_last_sep(s: &str) -> (r: Option<usize>)
    ensures
        match r {
            Some(i) => has_sep(s@) && i == last_sep(s@) && i + 2 <= s@.len(),
            None => !has_sep(s@),
        },
{
    let n = s.unicode_len();
    if n < 2 {
        return None;
    }
    let mut k: usize = n - 1;
    while k > 0
        invariant
            k <= n - 1,
            n == s@.len(),
            2 <= n,
            forall|j: int| k <= j ==> !sep_at(s@, j),
        decreases k,
    {
        k -= 1;
        if s.get_char(k) == ':' && s.get_char(k + 1) == ':' {
            proof {
                lemma_last_sep_unique(s@, k as int);
            }
            return Some(k);
        }
    }
    None
}

/// Does the shortener accept this name?  The embedder may call this before
/// `short_name` on names of unknown provenance.
pub fn is_well_formed_name(s: &str) -> (b: bool)
    ensures
        b == wf_name(s@),
    decreases s@.len(),
{
    match find_first_lt(s) {
        None => true,
        Some(i) => match find_last_gt(s) {
            None => false,
            Some(j) => {
                if i < j {
                    let inner = s.substring_char(i + 1, j);
                    is_well_formed_name(inner)
                } else {
                    false
                }
            },
        },
    }
}

/// Keep only the suffix of `s` after its last `::`, copied into a `String`.
fn last_segment(s: &str) -> (r: String)
    ensures
        r@ == tail_after_last_sep(s@),
{
    let n = s.unicode_len();
    match find_last_sep(s) {
        None => String::from_str(s),
        Some(k) => String::from_str(s.substring_char(k + 2, n)),
    }
}

/// Shorten a fully-qualified type name for display: `a::b::c::Type` becomes
/// `Type`, and `a::b::Handle<c::d::Material>` becomes `Handle<Material>`.
/// Nested generic arguments are shortened recursively; the interior of the
/// outermost `<`...`>` pair is treated as one name.
#[verifier::rlimit(50)]
pub fn short_name(qualified: &str) -> (r: String)
    requires
        wf_name(qualified@),
    ensures
        r@ == shorten_spec(qualified@),
    decreases qualified@.len(),
{
    let n = qualified.unicode_len();
    match find_first_lt(qualified) {
        None => last_segment(qualified),
        Some(i) => {
            let j = find_last_gt(qualified).unwrap();
            let before = qualified.substring_char(0, i);
            let inner = qualified.substring_char(i + 1, j);
            let after = qualified.substring_char(j + 1, n);
            let mut r = last_segment(before);
            let inner_short = short_name(inner);
            r.append("<");
            r.append(inner_short.as_str());
            r.append(">");
            r.append(after);
            proof {
                reveal_strlit("<");
                reveal_strlit(">");
                assert(r@ =~= shorten_spec(qualified@));
            }
            r
        },
    }
}

/// A name with no namespace separator and no angle bracket shortens to
/// itself.
pub proof fn lemma_shorten_identity(s: Seq<char>)
    requires
        forall|i: int| 0 <= i < s.len() ==> s[i] != '<',
        forall|i: int| 0 <= i < s.len() ==> s[i] != '>',
        forall|i: int| !sep_at(s, i),
    ensures
        wf_name(s),
        shorten_spec(s) == s,
{
    assert(!has_lt(s));
    assert(!has_sep(s));
}

} // verus!
