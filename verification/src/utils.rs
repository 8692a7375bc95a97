//! Small helpers: character-level access to strings, directory entries as
//! plain values, and `~` expansion for user-entered paths.

use vstd::prelude::*;

verus! {

/// Relies on the `Clone` impl of `core::result::Result`: cloning clones the
/// carried success or error value and keeps which of the two it is.
pub assume_specification<T: Clone, E: Clone>[ <core::result::Result<T, E> as Clone>::clone ](
    r: &core::result::Result<T, E>,
) -> (res: core::result::Result<T, E>)
    ensures
        res is Ok <==> r is Ok,
        res matches Ok(w) ==> r matches Ok(v) && cloned::<T>(*v, w),
        res matches Err(w) ==> r matches Err(v) && cloned::<E>(*v, w),
;

/// Relies on `String::push`: appends the given character to the end of the
/// string.
#[verifier::external_body]
pub(crate) fn push_char(s: &mut String, c: char)
    ensures
        final(s)@ == old(s)@.push(c),
{
    s.push(c)
}

/// The characters of `s`, in order, as a vector.
pub fn chars_of(s: &str) -> (r: Vec<char>)
    ensures
        r@ == s@,
{
    let n = s.unicode_len();
    let mut r: Vec<char> = Vec::new();
    let mut i: usize = 0;
    while i < n
        invariant
            i <= n,
            n == s@.len(),
            r@ == s@.take(i as int),
        decreases n - i,
    {
        let c = s.get_char(i);
        proof {
            assert(s@.take(i + 1) =~= s@.take(i as int).push(s@[i as int]));
        }
        r.push(c);
        i = i + 1;
    }
    proof {
        assert(r@ =~= s@);
    }
    r
}

/// The characters of `cs`, joined into a string.
pub fn string_of(cs: &Vec<char>) -> (r: String)
    ensures
        r@ == cs@,
{
    let mut r = String::new();
    let mut i: usize = 0;
    while i < cs.len()
        invariant
            i <= cs.len(),
            r@ == cs@.take(i as int),
        decreases cs.len() - i,
    {
        proof {
            assert(cs@.take(i + 1) =~= cs@.take(i as int).push(cs@[i as int]));
        }
        push_char(&mut r, cs[i]);
        i = i + 1;
    }
    proof {
        assert(r@ =~= cs@);
    }
    r
}

/// One entry of a directory listing, reduced to what the library reads: the
/// entry's path and whether it names a directory.
#[derive(Clone, Debug)]
pub struct FileEntry {
    /// The entry's path.
    pub path: String,
    /// Whether the entry is a directory.
    pub is_dir: bool,
}

/// Whether `s` holds the character `c` anywhere.
pub open spec fn contains_char(s: Seq<char>, c: char) -> bool {
    exists|k: int| 0 <= k < s.len() && s[k] == c
}

/// `path` with every `~` replaced by `home`.
pub open spec fn spec_expand_home(path: Seq<char>, home: Seq<char>) -> Seq<char>
    decreases path.len(),
{
    if path.len() == 0 {
        Seq::empty()
    } else if path[0] == '~' {
        home + spec_expand_home(path.skip(1), home)
    } else {
        seq![path[0]] + spec_expand_home(path.skip(1), home)
    }
}

proof fn lemma_expand_home_step(p: Seq<char>, h: Seq<char>, i: int)
    requires
        0 <= i < p.len(),
    ensures
        spec_expand_home(p.skip(i), h) == (if p[i] == '~' {
            h
        } else {
            seq![p[i]]
        }) + spec_expand_home(p.skip(i + 1), h),
{
    assert(p.skip(i).len() > 0);
    assert(p.skip(i)[0] == p[i]);
    assert(p.skip(i).skip(1) =~= p.skip(i + 1));
}

/// A path without `~` is unchanged by home expansion.
pub proof fn lemma_expand_home_id(p: Seq<char>, h: Seq<char>)
    requires
        !contains_char(p, '~'),
    ensures
        spec_expand_home(p, h) == p,
    decreases p.len(),
{
    if p.len() == 0 {
        assert(spec_expand_home(p, h) =~= p);
    } else {
        if p[0] == '~' {
            assert(contains_char(p, '~'));
        }
        if contains_char(p.skip(1), '~') {
            let k = choose|k: int| 0 <= k < p.skip(1).len() && p.skip(1)[k] == '~';
            assert(p[k + 1] == '~');
            assert(contains_char(p, '~'));
        }
        lemma_expand_home_id(p.skip(1), h);
        assert(seq![p[0]] + p.skip(1) =~= p);
    }
}

/// Replaces every `~` in `path` by `home`, the way a shell would expand a
/// leading tilde; every occurrence is replaced, not only a leading one.
pub fn expand_home_dir(path: &str, home: &str) -> (r: String)
    ensures
        r@ == spec_expand_home(path@, home@),
{
    let pcs = chars_of(path);
    let hcs = chars_of(home);
    let mut out: Vec<char> = Vec::new();
    let mut i: usize = 0;
    proof {
        assert(out@ + spec_expand_home(path@.skip(0), home@) =~= spec_expand_home(
            path@.skip(0),
            home@,
        ));
        assert(path@.skip(0) =~= path@);
    }
    while i < pcs.len()
        invariant
            i <= pcs@.len(),
            pcs@ == path@,
            hcs@ == home@,
            out@ + spec_expand_home(path@.skip(i as int), home@) == spec_expand_home(
                path@,
                home@,
            ),
        decreases pcs@.len() - i,
    {
        proof {
            lemma_expand_home_step(path@, home@, i as int);
        }
        if pcs[i] == '~' {
            let mut j: usize = 0;
            let ghost out_before = out@;
            while j < hcs.len()
                invariant
                    j <= hcs@.len(),
                    hcs@ == home@,
                    out@ == out_before + home@.take(j as int),
                decreases hcs@.len() - j,
            {
                proof {
                    assert(home@.take(j + 1) =~= home@.take(j as int).push(home@[j as int]));
                }
                out.push(hcs[j]);
                j = j + 1;
            }
            proof {
                assert(home@.take(home@.len() as int) =~= home@);
                assert(out@ + spec_expand_home(path@.skip(i + 1), home@) =~= (out_before
                    + spec_expand_home(path@.skip(i as int), home@)));
            }
        } else {
            out.push(pcs[i]);
            proof {
                assert(out@ + spec_expand_home(path@.skip(i + 1), home@) =~= (out@.drop_last()
                    + spec_expand_home(path@.skip(i as int), home@)));
            }
        }
        i = i + 1;
    }
    proof {
        assert(path@.skip(path@.len() as int) =~= Seq::<char>::empty());
        assert(out@ =~= out@ + spec_expand_home(path@.skip(path@.len() as int), home@));
    }
    string_of(&out)
}

} // verus!
