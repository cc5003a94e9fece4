//! Resolution of the project's root directory.
//!
//! The resolver takes the manifest directory's path as bytes, computes its
//! lexical parent (no filesystem access), falls back to the path itself when
//! no parent exists, and renders the result as text, substituting the
//! replacement character for byte sequences that are not valid UTF-8.

use vstd::prelude::*;
use vstd::utf8::*;

verus! {

/// The byte that separates path components (`/`).
pub const SEP: u8 = 47;

/// True when every byte of the path is a separator: a root-like path such as
/// `/` or `//`. The empty path is trivially all separators.
pub open spec fn all_seps(s: Seq<u8>) -> bool {
    forall|i: int| 0 <= i < s.len() ==> s[i] == SEP
}

/// The path with every trailing separator removed.
pub open spec fn strip_trailing_seps(s: Seq<u8>) -> Seq<u8>
    decreases s.len(),
{
    if s.len() > 0 && s[s.len() - 1] == SEP {
        strip_trailing_seps(s.drop_last())
    } else {
        s
    }
}

/// Index of the last separator in the path, or -1 when it has none.
pub open spec fn last_sep_index(s: Seq<u8>) -> int
    decreases s.len(),
{
    if s.len() == 0 {
        -1
    } else if s[s.len() - 1] == SEP {
        s.len() - 1
    } else {
        last_sep_index(s.drop_last())
    }
}

/// The lexical parent of a path: the path without its final component.
///
/// A path that is empty or consists only of separators names no component, so
/// it has no parent. Otherwise trailing separators are ignored, the final
/// component is cut at the last separator, and separators left hanging at the
/// end of the remainder are dropped as well; when nothing remains, the final
/// component sat directly under the root and the parent is the root `/` —
/// unless the path had no separator at all, in which case the parent is the
/// empty (relative) path.
pub open spec fn parent_of(s: Seq<u8>) -> Option<Seq<u8>> {
    if s.len() == 0 || all_seps(s) {
        None
    } else {
        let t = strip_trailing_seps(s);
        let i = last_sep_index(t);
        if i < 0 {
            Some(Seq::empty())
        } else {
            let pre = strip_trailing_seps(t.take(i));
            if pre.len() == 0 {
                Some(seq![SEP])
            } else {
                Some(pre)
            }
        }
    }
}

/// The directory the resolver reports, as bytes: the lexical parent when it
/// exists, otherwise the path itself.
pub open spec fn project_dir_of(s: Seq<u8>) -> Seq<u8> {
    match parent_of(s) {
        Some(p) => p,
        None => s,
    }
}

/// A path once stripped of trailing separators is empty exactly when the path
/// consisted of separators alone.
proof fn lemma_all_seps_iff_strip_empty(s: Seq<u8>)
    ensures
        all_seps(s) <==> strip_trailing_seps(s).len() == 0,
    decreases s.len(),
{
    if s.len() > 0 && s[s.len() - 1] == SEP {
        lemma_all_seps_iff_strip_empty(s.drop_last());
        assert(all_seps(s.drop_last()) ==> all_seps(s)) by {
            if all_seps(s.drop_last()) {
                assert forall|i: int| 0 <= i < s.len() implies s[i] == SEP by {
                    if i < s.len() - 1 {
                        assert(s.drop_last()[i] == SEP);
                    }
                }
            }
        }
        assert(all_seps(s) ==> all_seps(s.drop_last()));
    }
}

/// Length of `p[..end]` once trailing separators are stripped.
fn stripped_len(p: &[u8], end: usize) -> (n: usize)
    requires
        end <= p@.len(),
    ensures
        n <= end,
        p@.take(n as int) == strip_trailing_seps(p@.take(end as int)),
        n > 0 ==> p@[n - 1] != SEP,
{
    let mut n: usize = end;
    while n > 0 && p[n - 1] == SEP
        invariant
            n <= end <= p@.len(),
            strip_trailing_seps(p@.take(end as int)) == strip_trailing_seps(p@.take(n as int)),
        decreases n,
    {
        proof {
            assert(p@.take(n as int).drop_last() =~= p@.take(n as int - 1));
        }
        n -= 1;
    }
    proof {
        assert(strip_trailing_seps(p@.take(n as int)) == p@.take(n as int));
    }
    n
}

/// Index of the last separator in `p[..end]`, when one exists.
fn last_sep_in(p: &[u8], end: usize) -> (r: Option<usize>)
    requires
        end <= p@.len(),
    ensures
        match r {
            Some(i) => i < end && last_sep_index(p@.take(end as int)) == i as int,
            None => last_sep_index(p@.take(end as int)) == -1,
        },
{
    let mut j: usize = end;
    while j > 0
        invariant
            j <= end <= p@.len(),
            last_sep_index(p@.take(end as int)) == last_sep_index(p@.take(j as int)),
        decreases j,
    {
        if p[j - 1] == SEP {
            return Some(j - 1);
        }
        proof {
            assert(p@.take(j as int).drop_last() =~= p@.take(j as int - 1));
        }
        j -= 1;
    }
    None
}

/// The lexical parent of the path, when it has one: [`parent_of`] made
/// executable.
pub fn parent_dir(p: &[u8]) -> (r: Option<Vec<u8>>)
    ensures
        match r {
            Some(v) => parent_of(p@) == Some(v@),
            None => parent_of(p@) == None::<Seq<u8>>,
        },
{
    proof {
        assert(p@.take(p@.len() as int) =~= p@);
    }
    let n = stripped_len(p, p.len());
    if n == 0 {
        // empty, or separators alone: no component to cut off
        proof {
            lemma_all_seps_iff_strip_empty(p@);
        }
        return None;
    }
    proof {
        lemma_all_seps_iff_strip_empty(p@);
    }
    match last_sep_in(p, n) {
        None => {
            // a single relative component: its parent is the empty path
            Some(Vec::new())
        },
        Some(i) => {
            proof {
                assert(p@.take(n as int).take(i as int) =~= p@.take(i as int));
            }
            let m = stripped_len(p, i);
            if m == 0 {
                // the final component sat directly under the root
                let mut v: Vec<u8> = Vec::new();
                v.push(SEP);
                proof {
                    assert(v@ =~= seq![SEP]);
                }
                Some(v)
            } else {
                let v = vstd::slice::slice_to_vec(vstd::slice::slice_subrange(p, 0, m));
                proof {
                    assert(p@.subrange(0, m as int) =~= p@.take(m as int));
                }
                Some(v)
            }
        },
    }
}

/// The directory that holds the project, as bytes: the manifest path's
/// lexical parent, or the path itself when no parent exists.
pub fn project_dir_bytes(p: &[u8]) -> (r: Vec<u8>)
    ensures
        r@ == project_dir_of(p@),
{
    match parent_dir(p) {
        Some(v) => v,
        None => vstd::slice::slice_to_vec(p),
    }
}

/// What `String::from_utf8_lossy` decodes the given bytes to.
pub uninterp spec fn lossy_of(b: Seq<u8>) -> Seq<char>;

/// Relies on `String::from_utf8_lossy`: its result is a function of the bytes
/// alone; bytes that are valid UTF-8 decode verbatim, and every invalid
/// sequence is replaced with U+FFFD, so an invalid input leaves at least one
/// replacement character in the output.
#[verifier::external_body]
fn lossy_string(b: &[u8]) -> (r: String)
    ensures
        r@ == lossy_of(b@),
        valid_utf8(b@) ==> r@ == decode_utf8(b@),
        !valid_utf8(b@) ==> r@.contains('\u{fffd}'),
{
    String::from_utf8_lossy(b).into_owned()
}

/// Resolve the project's root directory from the manifest directory's path.
///
/// The result is the text form of the path's lexical parent — of the path
/// itself when it has no parent — decoded lossily: the computation is total,
/// touches no filesystem, and depends on the given bytes alone.
pub fn get_project_dir(manifest_dir: &[u8]) -> (r: String)
    ensures
        r@ == lossy_of(project_dir_of(manifest_dir@)),
        valid_utf8(project_dir_of(manifest_dir@)) ==> r@ == decode_utf8(
            project_dir_of(manifest_dir@),
        ),
        !valid_utf8(project_dir_of(manifest_dir@)) ==> r@.contains('\u{fffd}'),
        valid_utf8(manifest_dir@) ==> r@ == decode_utf8(project_dir_of(manifest_dir@)),
{
    proof {
        if valid_utf8(manifest_dir@) {
            lemma_resolution_preserves_valid_utf8(manifest_dir@);
        }
    }
    let dir = project_dir_bytes(manifest_dir);
    lossy_string(dir.as_slice())
}

/// Stripping trailing separators leaves a prefix of the path; everything past
/// that prefix is a separator.
proof fn lemma_strip_is_prefix(s: Seq<u8>)
    ensures
        strip_trailing_seps(s).len() <= s.len(),
        strip_trailing_seps(s) == s.take(strip_trailing_seps(s).len() as int),
        forall|j: int| strip_trailing_seps(s).len() <= j < s.len() ==> s[j] == SEP,
    decreases s.len(),
{
    if s.len() > 0 && s[s.len() - 1] == SEP {
        lemma_strip_is_prefix(s.drop_last());
        let k = strip_trailing_seps(s.drop_last()).len() as int;
        assert(s.drop_last().take(k) =~= s.take(k));
        assert forall|j: int| k <= j < s.len() implies s[j] == SEP by {
            if j < s.len() - 1 {
                assert(s.drop_last()[j] == SEP);
            }
        }
    }
}

/// `last_sep_index` points at a separator whenever it finds one, and stays
/// within the path.
proof fn lemma_last_sep_index_points_at_sep(s: Seq<u8>)
    ensures
        last_sep_index(s) < s.len(),
        last_sep_index(s) >= 0 ==> s[last_sep_index(s)] == SEP,
    decreases s.len(),
{
    if s.len() > 0 && s[s.len() - 1] != SEP {
        lemma_last_sep_index_points_at_sep(s.drop_last());
    }
}

/// In valid UTF-8, a position that does not hold a continuation byte — or
/// the end of the sequence — falls on a character boundary.
proof fn lemma_non_continuation_is_boundary(s: Seq<u8>, k: int)
    requires
        valid_utf8(s),
        0 <= k <= s.len(),
        k == s.len() || !is_continuation_byte(s[k]),
    ensures
        is_char_boundary(s, k),
    decreases s.len(),
{
    if k > 0 {
        let len_first = length_of_first_scalar(s);
        assert(valid_first_scalar(s));
        assert(1 <= len_first && len_first <= s.len());
        // every byte of the first scalar after its leading byte is a
        // continuation byte, so k cannot fall inside the first scalar
        assert(forall|t: int| 1 <= t < len_first ==> is_continuation_byte(s[t]));
        assert(k >= len_first);
        let rest = pop_first_scalar(s);
        assert(rest.len() == s.len() - len_first);
        if k < s.len() {
            assert(rest[k - len_first] == s[k]);
        }
        lemma_non_continuation_is_boundary(rest, k - len_first);
    }
}

/// The root path `/` is valid UTF-8: the separator is a one-byte scalar.
proof fn lemma_sep_valid_utf8()
    ensures
        valid_utf8(seq![SEP]),
{
    let s = seq![SEP];
    assert(is_leading_byte_width_1(SEP));
    assert(47u8 & 0x7f == 47u8) by (bit_vector);
    assert(decode_first_codepoint(s) == 47u32);
    assert(valid_first_scalar(s));
    assert(pop_first_scalar(s) =~= Seq::<u8>::empty());
    assert(valid_utf8(pop_first_scalar(s)));
}

/// Validity law: every cut the parent computation makes falls beside a
/// separator, an ASCII byte and hence a character boundary, so the directory
/// resolved from a valid UTF-8 path is itself valid UTF-8.
pub proof fn lemma_resolution_preserves_valid_utf8(p: Seq<u8>)
    requires
        valid_utf8(p),
    ensures
        valid_utf8(project_dir_of(p)),
{
    if p.len() != 0 && !all_seps(p) {
        let t = strip_trailing_seps(p);
        lemma_strip_is_prefix(p);
        let i = last_sep_index(t);
        lemma_last_sep_index_points_at_sep(t);
        if i >= 0 {
            assert(t[i] == SEP);
            assert(t.take(t.len() as int) =~= t);
            assert(p[i] == SEP);
            let cut = t.take(i);
            let pre = strip_trailing_seps(cut);
            lemma_strip_is_prefix(cut);
            if pre.len() == 0 {
                lemma_sep_valid_utf8();
            } else {
                let m = pre.len() as int;
                assert(pre =~= p.take(m)) by {
                    assert(pre == cut.take(m));
                }
                // the byte at the cut is a separator: within the stripped
                // prefix it was followed only by separators up to t[i]
                assert(m <= i < p.len());
                assert(p[m] == SEP) by {
                    if m < i {
                        assert(cut[m] == SEP);
                    }
                }
                assert(!is_continuation_byte(p[m]));
                lemma_non_continuation_is_boundary(p, m);
                valid_utf8_split(p, m);
                assert(p.subrange(0, m) =~= pre);
            }
        }
    }
}

/// The rule the resolver follows: the reported directory is the lexical
/// parent whenever one exists, and the path itself otherwise.
pub proof fn lemma_resolution_rule(p: Seq<u8>)
    ensures
        match parent_of(p) {
            Some(q) => project_dir_of(p) == q,
            None => project_dir_of(p) == p,
        },
{
}

/// Resolution is referentially transparent: the reported text is a function
/// of the manifest path alone, so any two resolutions of the same path are
/// equal, whatever their order.
pub proof fn lemma_resolution_deterministic(p: Seq<u8>, r1: Seq<char>, r2: Seq<char>)
    requires
        r1 == lossy_of(project_dir_of(p)),
        r2 == lossy_of(project_dir_of(p)),
    ensures
        r1 == r2,
{
}

} // verus!
