//! Verified string utilities shared by the scanners: character-level
//! equality, searching a fragment in a line, joining and copying fragment
//! vectors.

use vstd::prelude::*;

use crate::lexer::semantics::{concat_frags, contains_frag, find_off, join_spaced};

verus! {

/// Relies on `String::push`: appends exactly the given character to the
/// end of the string.
pub assume_specification[ std::string::String::push ](s: &mut String, ch: char)
    ensures
        final(s)@ == old(s)@.push(ch),
;

/// Character-for-character equality of two string slices.
pub fn str_eq(a: &str, b: &str) -> (r: bool)
    ensures
        r == (a@ == b@),
{
    let la = a.unicode_len();
    let lb = b.unicode_len();
    if la != lb {
        proof {
            assert(a@ != b@);
        }
        return false;
    }
    let mut k: usize = 0;
    while k < la
        invariant
            0 <= k <= la,
            la == a@.len(),
            la == b@.len(),
            forall|m: int| 0 <= m < k ==> a@[m] == b@[m],
        decreases la - k,
    {
        if a.get_char(k) != b.get_char(k) {
            return false;
        }
        k = k + 1;
    }
    proof {
        assert(a@ =~= b@);
    }
    true
}

/// Whether a fragment equals a literal.
pub fn frag_is(s: &String, lit: &str) -> (r: bool)
    ensures
        r == (s@ == lit@),
{
    str_eq(s.as_str(), lit)
}

/// A copy of a fragment vector, character-exact.
pub fn clone_strings(v: &Vec<String>) -> (r: Vec<String>)
    ensures
        r@.len() == v@.len(),
        forall|m: int| 0 <= m < v@.len() ==> r@[m]@ == v@[m]@,
        r.deep_view() =~= v.deep_view(),
{
    let mut out: Vec<String> = Vec::new();
    let mut k: usize = 0;
    while k < v.len()
        invariant
            0 <= k <= v@.len(),
            out@.len() == k,
            forall|m: int| 0 <= m < k ==> out@[m]@ == v@[m]@,
        decreases v@.len() - k,
    {
        out.push(v[k].clone());
        k = k + 1;
    }
    out
}

/// A copy of a fragment table, character-exact.
pub fn clone_string_vecs(v: &Vec<Vec<String>>) -> (r: Vec<Vec<String>>)
    ensures
        r.deep_view() =~~= v.deep_view(),
{
    let mut out: Vec<Vec<String>> = Vec::new();
    let mut k: usize = 0;
    while k < v.len()
        invariant
            0 <= k <= v@.len(),
            out@.len() == k,
            forall|m: int| 0 <= m < k ==> out@[m].deep_view() =~~= v@[m].deep_view(),
        decreases v@.len() - k,
    {
        out.push(clone_strings(&v[k]));
        k = k + 1;
    }
    out
}

/// The index of the first occurrence of `lit` in `line` at or after
/// `from`, or the line's length when there is none.
pub fn find_frag(line: &Vec<String>, from: usize, lit: &str) -> (k: usize)
    requires
        from <= line@.len(),
    ensures
        k == from + find_off(line.deep_view(), from as int, lit@),
        from <= k <= line@.len(),
        k < line@.len() ==> line@[k as int]@ == lit@,
{
    let mut k: usize = from;
    while k < line.len()
        invariant
            from <= k <= line@.len(),
            find_off(line.deep_view(), from as int, lit@) == (k - from) + find_off(
                line.deep_view(),
                k as int,
                lit@,
            ),
            forall|m: int| from <= m < k ==> line.deep_view()[m] != lit@,
        decreases line@.len() - k,
    {
        if frag_is(&line[k], lit) {
            return k;
        }
        k = k + 1;
    }
    k
}

/// Whether any fragment in `line[from..to]` equals `lit`.
pub fn range_contains(line: &Vec<String>, from: usize, to: usize, lit: &str) -> (r: bool)
    requires
        from <= to <= line@.len(),
    ensures
        r == contains_frag(line.deep_view().subrange(from as int, to as int), lit@),
{
    let ghost sub = line.deep_view().subrange(from as int, to as int);
    let mut k: usize = from;
    while k < to
        invariant
            from <= k <= to <= line@.len(),
            sub == line.deep_view().subrange(from as int, to as int),
            forall|m: int| from <= m < k ==> line.deep_view()[m] != lit@,
        decreases to - k,
    {
        if frag_is(&line[k], lit) {
            proof {
                assert(sub[k - from] == lit@);
            }
            return true;
        }
        k = k + 1;
    }
    proof {
        assert forall|m: int| 0 <= m < sub.len() implies sub[m] != lit@ by {
            assert(sub[m] == line.deep_view()[from + m]);
        }
    }
    false
}

/// The fragments of a line joined with single spaces, as kept on each
/// finalized Line for diagnostics.
pub fn join_frags(line: &Vec<String>) -> (r: String)
    ensures
        r@ == join_spaced(line.deep_view()),
{
    let mut s = String::new();
    let mut k: usize = 0;
    while k < line.len()
        invariant
            0 <= k <= line@.len(),
            s@ == join_spaced(line.deep_view().subrange(0, k as int)),
        decreases line@.len() - k,
    {
        if k > 0 {
            s.push(' ');
        }
        s.append(line[k].as_str());
        proof {
            lemma_join_spaced_push(
                line.deep_view().subrange(0, k as int),
                line.deep_view()[k as int],
            );
            assert(line.deep_view().subrange(0, k as int).push(line.deep_view()[k as int])
                =~= line.deep_view().subrange(0, k + 1 as int));
        }
        k = k + 1;
    }
    proof {
        assert(line.deep_view().subrange(0, line.deep_view().len() as int) =~= line.deep_view());
    }
    s
}

/// The fragments `line[from..]` joined with single spaces, as a comment
/// keeps the text after its marker.
pub fn join_frags_from(line: &Vec<String>, from: usize) -> (r: String)
    requires
        from <= line@.len(),
    ensures
        r@ == join_spaced(line.deep_view().subrange(from as int, line.deep_view().len() as int)),
{
    let mut s = String::new();
    let mut k: usize = from;
    proof {
        assert(line.deep_view().subrange(from as int, from as int) =~= Seq::<Seq<char>>::empty());
    }
    while k < line.len()
        invariant
            from <= k <= line@.len(),
            s@ == join_spaced(line.deep_view().subrange(from as int, k as int)),
        decreases line@.len() - k,
    {
        if k > from {
            s.push(' ');
        }
        s.append(line[k].as_str());
        proof {
            lemma_join_spaced_push(
                line.deep_view().subrange(from as int, k as int),
                line.deep_view()[k as int],
            );
            assert(line.deep_view().subrange(from as int, k as int).push(
                line.deep_view()[k as int],
            ) =~= line.deep_view().subrange(from as int, k + 1 as int));
        }
        k = k + 1;
    }
    s
}

/// The index (within the whole line) of the first occurrence of `lit` in
/// the sub-line `line[base..bound]` at or after `from`, stated over the
/// sub-line's own offsets; `bound` is reached when there is none.
pub fn find_frag_within(line: &Vec<String>, base: usize, bound: usize, from: usize, lit: &str) -> (
    k: usize)
    requires
        base <= from <= bound <= line@.len(),
    ensures
        ({
            let sub = line.deep_view().subrange(base as int, bound as int);
            &&& k == from + find_off(sub, from - base, lit@)
            &&& from <= k <= bound
            &&& k < bound ==> sub[k - base] == lit@
        }),
{
    let ghost sub = line.deep_view().subrange(base as int, bound as int);
    let mut k: usize = from;
    while k < bound
        invariant
            base <= from <= k <= bound <= line@.len(),
            sub == line.deep_view().subrange(base as int, bound as int),
            find_off(sub, from - base, lit@) == (k - from) + find_off(sub, k - base, lit@),
            forall|m: int| from - base <= m < k - base ==> sub[m] != lit@,
        decreases bound - k,
    {
        proof {
            assert(sub[k - base] == line.deep_view()[k as int]);
        }
        if frag_is(&line[k], lit) {
            return k;
        }
        k = k + 1;
    }
    k
}

/// The concatenation of the fragments `line[from..to]`, with nothing
/// between them.
pub fn concat_range(line: &Vec<String>, from: usize, to: usize) -> (r: String)
    requires
        from <= to <= line@.len(),
    ensures
        r@ == concat_frags(line.deep_view().subrange(from as int, to as int)),
{
    let mut s = String::new();
    let mut k: usize = from;
    proof {
        assert(s@ =~= concat_frags(line.deep_view().subrange(from as int, from as int)));
    }
    while k < to
        invariant
            from <= k <= to <= line@.len(),
            s@ == concat_frags(line.deep_view().subrange(from as int, k as int)),
        decreases to - k,
    {
        s.append(line[k].as_str());
        proof {
            lemma_concat_frags_push(
                line.deep_view().subrange(from as int, k as int),
                line.deep_view()[k as int],
            );
            assert(line.deep_view().subrange(from as int, k as int).push(
                line.deep_view()[k as int],
            ) =~= line.deep_view().subrange(from as int, k + 1 as int));
        }
        k = k + 1;
    }
    s
}

/// Concatenation after appending one fragment appends that fragment.
pub proof fn lemma_concat_frags_push(fs: Seq<Seq<char>>, x: Seq<char>)
    ensures
        concat_frags(fs.push(x)) == concat_frags(fs) + x,
    decreases fs.len(),
{
    if fs.len() == 0 {
        assert(fs.push(x)[0] == x);
        assert(fs.push(x).drop_first() =~= Seq::<Seq<char>>::empty());
        assert(concat_frags(Seq::<Seq<char>>::empty()) =~= Seq::<char>::empty());
        assert(concat_frags(fs.push(x)) =~= x + Seq::<char>::empty());
        assert(x + Seq::<char>::empty() =~= x);
        assert(concat_frags(fs) + x =~= x);
    } else {
        assert(fs.push(x).drop_first() =~= fs.drop_first().push(x));
        lemma_concat_frags_push(fs.drop_first(), x);
        assert(concat_frags(fs.push(x)) =~= concat_frags(fs) + x);
    }
}

/// A fragment without its final character.
pub fn drop_last_char(s: &String) -> (r: String)
    requires
        s@.len() > 0,
    ensures
        r@ == s@.drop_last(),
{
    let n = s.as_str().unicode_len();
    let sub = s.as_str().substring_char(0, n - 1);
    proof {
        assert(sub@ =~= s@.drop_last());
    }
    sub.to_owned()
}

/// Whether a fragment's final character is a colon.
pub fn ends_with_colon(s: &String) -> (r: bool)
    ensures
        r == (s@.len() > 0 && s@.last() == ':'),
{
    let n = s.as_str().unicode_len();
    if n == 0 {
        false
    } else {
        s.as_str().get_char(n - 1) == ':'
    }
}

/// The four ASCII blank characters.
pub open spec fn is_blank(c: char) -> bool {
    c == ' ' || c == '\n' || c == '\t' || c == '\r'
}

pub open spec fn trim_start(s: Seq<char>) -> Seq<char>
    decreases s.len(),
{
    if s.len() > 0 && is_blank(s[0]) {
        trim_start(s.drop_first())
    } else {
        s
    }
}

pub open spec fn trim_end(s: Seq<char>) -> Seq<char>
    decreases s.len(),
{
    if s.len() > 0 && is_blank(s.last()) {
        trim_end(s.drop_last())
    } else {
        s
    }
}

/// A text without its leading and trailing blanks.
pub open spec fn trim_ws(s: Seq<char>) -> Seq<char> {
    trim_end(trim_start(s))
}

fn is_blank_char(c: char) -> (r: bool)
    ensures
        r == is_blank(c),
{
    c == ' ' || c == '\n' || c == '\t' || c == '\r'
}

/// The text without its leading and trailing blanks.
pub fn trim_blank(s: &str) -> (r: String)
    ensures
        r@ == trim_ws(s@),
{
    let n = s.unicode_len();
    let mut a: usize = 0;
    proof {
        assert(s@.subrange(0, n as int) =~= s@);
        assert(trim_start(s@) == trim_start(s@.subrange(a as int, n as int)));
    }
    while a < n
        invariant
            0 <= a <= n,
            n == s@.len(),
            trim_start(s@) == trim_start(s@.subrange(a as int, n as int)),
        ensures
            0 <= a <= n,
            trim_start(s@) == s@.subrange(a as int, n as int),
        decreases n - a,
    {
        let ghost sub = s@.subrange(a as int, n as int);
        proof {
            assert(sub[0] == s@[a as int]);
            assert(sub.drop_first() =~= s@.subrange(a as int + 1, n as int));
        }
        if !is_blank_char(s.get_char(a)) {
            break ;
        }
        a = a + 1;
        proof {
            if a == n {
                assert(s@.subrange(n as int, n as int) =~= Seq::<char>::empty());
            }
        }
    }
    let mut b: usize = n;
    proof {
        assert(trim_end(trim_start(s@)) == trim_end(s@.subrange(a as int, b as int)));
    }
    while b > a
        invariant
            0 <= a <= b <= n,
            n == s@.len(),
            trim_start(s@) == s@.subrange(a as int, n as int),
            trim_ws(s@) == trim_end(s@.subrange(a as int, b as int)),
        ensures
            0 <= a <= b <= n,
            trim_ws(s@) == s@.subrange(a as int, b as int),
        decreases b - a,
    {
        let ghost sub = s@.subrange(a as int, b as int);
        proof {
            assert(sub.last() == s@[b as int - 1]);
            assert(sub.drop_last() =~= s@.subrange(a as int, b as int - 1));
        }
        if !is_blank_char(s.get_char(b - 1)) {
            break ;
        }
        b = b - 1;
        proof {
            if b == a {
                assert(s@.subrange(a as int, a as int) =~= Seq::<char>::empty());
            }
        }
    }
    let sub = s.substring_char(a, b);
    sub.to_owned()
}

/// Joining after appending one fragment appends a space (when anything
/// precedes) and the fragment.
pub proof fn lemma_join_spaced_push(fs: Seq<Seq<char>>, x: Seq<char>)
    ensures
        join_spaced(fs.push(x)) == if fs.len() == 0 {
            x
        } else {
            join_spaced(fs) + seq![' '] + x
        },
    decreases fs.len(),
{
    if fs.len() == 0 {
        assert(fs.push(x)[0] =~= x);
        assert(fs.push(x).len() == 1);
    } else {
        assert(fs.push(x).drop_first() =~= fs.drop_first().push(x));
        lemma_join_spaced_push(fs.drop_first(), x);
        if fs.len() == 1 {
            assert(join_spaced(fs) == fs[0]);
            assert(join_spaced(fs.push(x)) == fs[0] + seq![' '] + x);
        }
    }
}

} // verus!
