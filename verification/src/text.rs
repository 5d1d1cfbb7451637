//! String helpers for paths, names and ordering.
//!
//! Paths are plain strings whose components are separated by `/`.  The one
//! operation this library cannot state exactly is Unicode lowercasing; it is
//! named by the uninterpreted function [`lower_of`] and supplied by the
//! standard library behind a trusted wrapper.

use vstd::prelude::*;
use vstd::string::StrSliceExecFns;
use vstd::string::StringExecFns;

verus! {

/// What `str::to_lowercase` returns for a given sequence of characters; a
/// function of the characters alone.
pub uninterp spec fn lower_of(s: Seq<char>) -> Seq<char>;

/// Relies on str::to_lowercase: the result depends on the characters alone,
/// and an empty string stays empty.
#[verifier::external_body]
pub(crate) fn lowercase(s: &str) -> (r: String)
    ensures
        r@ == lower_of(s@),
        s@.len() == 0 ==> r@.len() == 0,
{
    s.to_lowercase()
}

/// Lexicographic order on character sequences, by Unicode scalar value; a
/// prefix precedes its extensions.
pub open spec fn lex_le(a: Seq<char>, b: Seq<char>) -> bool
    decreases a.len(),
{
    if a.len() == 0 {
        true
    } else if b.len() == 0 {
        false
    } else if (a[0] as u32) < (b[0] as u32) {
        true
    } else if (a[0] as u32) > (b[0] as u32) {
        false
    } else {
        lex_le(a.skip(1), b.skip(1))
    }
}

/// The order is total: two sequences compare in at least one direction.
pub proof fn lemma_lex_le_total(a: Seq<char>, b: Seq<char>)
    ensures
        lex_le(a, b) || lex_le(b, a),
    decreases a.len(),
{
    if a.len() == 0 || b.len() == 0 {
    } else if (a[0] as u32) == (b[0] as u32) {
        lemma_lex_le_total(a.skip(1), b.skip(1));
    }
}

/// The order is transitive.
pub proof fn lemma_lex_le_trans(a: Seq<char>, b: Seq<char>, c: Seq<char>)
    requires
        lex_le(a, b),
        lex_le(b, c),
    ensures
        lex_le(a, c),
    decreases a.len(),
{
    if a.len() == 0 || b.len() == 0 || c.len() == 0 {
    } else if (a[0] as u32) == (b[0] as u32) && (b[0] as u32) == (c[0] as u32) {
        lemma_lex_le_trans(a.skip(1), b.skip(1), c.skip(1));
    }
}

/// Compares two strings in the lexicographic order of their characters.
pub fn str_lex_le(a: &str, b: &str) -> (r: bool)
    ensures
        r == lex_le(a@, b@),
{
    let alen = a.unicode_len();
    let blen = b.unicode_len();
    let mut i: usize = 0;
    proof {
        assert(a@.skip(0) =~= a@);
        assert(b@.skip(0) =~= b@);
    }
    loop
        invariant
            0 <= i <= alen,
            0 <= i <= blen,
            alen == a@.len(),
            blen == b@.len(),
            forall|j: int| 0 <= j < i ==> a@[j] == b@[j],
            lex_le(a@, b@) == lex_le(a@.skip(i as int), b@.skip(i as int)),
        decreases alen - i,
    {
        if i >= alen {
            proof {
                assert(a@.skip(i as int).len() == 0);
            }
            return true;
        }
        if i >= blen {
            proof {
                assert(b@.skip(i as int).len() == 0);
                assert(a@.skip(i as int).len() > 0);
            }
            return false;
        }
        let ca = a.get_char(i);
        let cb = b.get_char(i);
        if (ca as u32) < (cb as u32) {
            proof {
                assert(a@.skip(i as int)[0] == a@[i as int]);
                assert(b@.skip(i as int)[0] == b@[i as int]);
            }
            return true;
        }
        if (ca as u32) > (cb as u32) {
            proof {
                assert(a@.skip(i as int)[0] == a@[i as int]);
                assert(b@.skip(i as int)[0] == b@[i as int]);
            }
            return false;
        }
        proof {
            assert(a@.skip(i as int)[0] == a@[i as int]);
            assert(b@.skip(i as int)[0] == b@[i as int]);
            assert(a@.skip(i as int).skip(1) =~= a@.skip(i + 1));
            assert(b@.skip(i as int).skip(1) =~= b@.skip(i + 1));
        }
        i = i + 1;
    }
}

/// Whether two strings hold the same characters.
pub fn str_eq(a: &str, b: &str) -> (r: bool)
    ensures
        r == (a@ == b@),
{
    let alen = a.unicode_len();
    let blen = b.unicode_len();
    if alen != blen {
        return false;
    }
    let mut i: usize = 0;
    while i < alen
        invariant
            0 <= i <= alen,
            alen == a@.len(),
            blen == b@.len(),
            alen == blen,
            forall|j: int| 0 <= j < i ==> a@[j] == b@[j],
        decreases alen - i,
    {
        let ca = a.get_char(i);
        let cb = b.get_char(i);
        if ca != cb {
            proof {
                assert(a@[i as int] != b@[i as int]);
            }
            return false;
        }
        i = i + 1;
    }
    proof {
        assert(a@ =~= b@);
    }
    true
}

/// The suffix of `s` after the last occurrence of `sep`: the whole sequence
/// when `sep` does not occur, empty when `s` ends with `sep`.
pub open spec fn suffix_after_last(s: Seq<char>, sep: char) -> Seq<char>
    decreases s.len(),
{
    if s.len() == 0 {
        s
    } else if s.last() == sep {
        Seq::empty()
    } else {
        suffix_after_last(s.drop_last(), sep).push(s.last())
    }
}

proof fn lemma_suffix_after_last_at(s: Seq<char>, sep: char, j: int)
    requires
        0 <= j <= s.len(),
        forall|k: int| j <= k < s.len() ==> s[k] != sep,
        j == 0 || s[j - 1] == sep,
    ensures
        suffix_after_last(s, sep) == s.subrange(j, s.len() as int),
    decreases s.len(),
{
    if s.len() == 0 {
        assert(suffix_after_last(s, sep) =~= s.subrange(0, 0));
    } else if j == s.len() {
        assert(s.last() == sep);
        assert(suffix_after_last(s, sep) =~= s.subrange(j, s.len() as int));
    } else {
        assert(s.last() != sep);
        lemma_suffix_after_last_at(s.drop_last(), sep, j);
        assert(suffix_after_last(s, sep) =~= s.subrange(j, s.len() as int));
    }
}

/// The suffix of `s` after the last occurrence of `sep`, as a slice of `s`.
pub fn suffix_after(s: &str, sep: char) -> (r: &str)
    ensures
        r@ == suffix_after_last(s@, sep),
{
    let len = s.unicode_len();
    let j = suffix_boundary(s, sep);
    proof {
        lemma_suffix_after_last_at(s@, sep, j as int);
    }
    s.substring_char(j, len)
}

/// The index just past the last occurrence of `sep`, or zero when `sep`
/// does not occur.
fn suffix_boundary(s: &str, sep: char) -> (j: usize)
    ensures
        0 <= j <= s@.len(),
        forall|k: int| j <= k < s@.len() ==> s@[k] != sep,
        j == 0 || s@[j - 1] == sep,
{
    let len = s.unicode_len();
    let mut j: usize = len;
    loop
        invariant
            0 <= j <= len,
            len == s@.len(),
            forall|k: int| j <= k < len ==> s@[k] != sep,
        decreases j,
    {
        if j == 0 {
            return 0;
        }
        if s.get_char(j - 1) == sep {
            return j;
        }
        j = j - 1;
    }
}

/// The name of a path: what follows its last `/`, or the path itself when
/// it has none.
pub open spec fn spec_file_name(path: Seq<char>) -> Seq<char> {
    suffix_after_last(path, '/')
}

/// Extracts the name part of a path.
pub fn file_name_of(path: &str) -> (r: String)
    ensures
        r@ == spec_file_name(path@),
{
    let suffix = suffix_after(path, '/');
    String::from_str(suffix)
}

/// A path joined with one further component.
pub open spec fn spec_join(dir: Seq<char>, name: Seq<char>) -> Seq<char> {
    dir + seq!['/'] + name
}

/// Joins a directory path and a child name with a `/` separator.
pub fn join_path(dir: &str, name: &str) -> (r: String)
    ensures
        r@ == spec_join(dir@, name@),
{
    let r = String::from_str(dir).concat("/").concat(name);
    proof {
        reveal_strlit("/");
        assert(r@ =~= spec_join(dir@, name@));
    }
    r
}

/// Whether a name is hidden: it starts with a dot.
pub open spec fn spec_hidden(name: Seq<char>) -> bool {
    name.len() > 0 && name[0] == '.'
}

/// Whether a name starts with a dot.
pub fn starts_with_dot(name: &str) -> (r: bool)
    ensures
        r == spec_hidden(name@),
{
    if name.unicode_len() == 0 {
        false
    } else {
        name.get_char(0) == '.'
    }
}

/// The extension of a path: what follows the last dot of its name.  A
/// name without a dot has none, and neither has a dot-leading name whose
/// only dot is the leading one (a hidden-file marker, not an extension).
pub open spec fn spec_extension(path: Seq<char>) -> Seq<char> {
    let name = spec_file_name(path);
    let ext = suffix_after_last(name, '.');
    if name.contains('.') && ext.len() + 2 <= name.len() {
        ext
    } else {
        Seq::empty()
    }
}

/// Extracts the extension of a path.
pub fn extension_of(path: &str) -> (r: String)
    ensures
        r@ == spec_extension(path@),
{
    let name = suffix_after(path, '/');
    if contains_char(name, '.') {
        let ext = suffix_after(name, '.');
        let name_len = name.unicode_len();
        let ext_len = ext.unicode_len();
        if name_len >= 2 && ext_len <= name_len - 2 {
            return String::from_str(ext);
        }
    }
    String::new()
}

/// Whether `sep` occurs in `s`.
pub fn contains_char(s: &str, sep: char) -> (r: bool)
    ensures
        r == s@.contains(sep),
{
    let len = s.unicode_len();
    let mut i: usize = 0;
    while i < len
        invariant
            0 <= i <= len,
            len == s@.len(),
            forall|j: int| 0 <= j < i ==> s@[j] != sep,
        decreases len - i,
    {
        if s.get_char(i) == sep {
            return true;
        }
        i = i + 1;
    }
    proof {
        assert(forall|j: int| 0 <= j < s@.len() ==> s@[j] != sep);
    }
    false
}

} // verus!
