//! Small verified helpers over strings, used for every path and URL
//! derivation in the crate.
use vstd::prelude::*;

verus! {

/// The characters of an optional string.
pub open spec fn opt_string_view(o: Option<String>) -> Option<Seq<char>> {
    match o {
        Some(s) => Some(s@),
        None => None,
    }
}

/// Clone an optional string, keeping its characters.
pub fn clone_opt_string(o: &Option<String>) -> (r: Option<String>)
    ensures
        opt_string_view(r) == opt_string_view(*o),
{
    match o {
        Some(s) => Some(s.clone()),
        None => None,
    }
}

/// Compare two string slices for character-wise equality.
pub fn eq_str(a: &str, b: &str) -> (r: bool)
    ensures
        r == (a@ == b@),
{
    let sa: String = a.to_owned();
    let sb: String = b.to_owned();
    sa == sb
}

/// Concatenate two string slices.
pub fn concat_str(a: &str, b: &str) -> (r: String)
    ensures
        r@ == a@ + b@,
{
    let s: String = a.to_owned();
    s.concat(b)
}

/// Concatenate three string slices.
pub fn concat3(a: &str, b: &str, c: &str) -> (r: String)
    ensures
        r@ == a@ + b@ + c@,
{
    let mut s: String = a.to_owned();
    s.append(b);
    s.append(c);
    s
}

/// Join two path components with a single separator.
pub fn join_path(a: &str, b: &str) -> (r: String)
    ensures
        r@ == a@ + seq!['/'] + b@,
{
    proof {
        reveal_strlit("/");
        assert("/"@ =~= seq!['/']);
    }
    concat3(a, "/", b)
}

/// Whether `s` ends with `suffix`.
pub fn ends_with_str(s: &str, suffix: &str) -> (r: bool)
    ensures
        r == (s@.len() >= suffix@.len() && s@.subrange(
            s@.len() - suffix@.len(),
            s@.len() as int,
        ) == suffix@),
{
    let n = s.unicode_len();
    let m = suffix.unicode_len();
    if m > n {
        false
    } else {
        let tail = s.substring_char(n - m, n);
        eq_str(tail, suffix)
    }
}

/// Whether `s` starts with `prefix`.
pub fn starts_with_str(s: &str, prefix: &str) -> (r: bool)
    ensures
        r == (s@.len() >= prefix@.len() && s@.subrange(0, prefix@.len() as int) == prefix@),
{
    let n = s.unicode_len();
    let m = prefix.unicode_len();
    if m > n {
        false
    } else {
        let head = s.substring_char(0, m);
        eq_str(head, prefix)
    }
}

/// Whether `s` begins with a `/`.
pub fn starts_with_slash(s: &str) -> (r: bool)
    ensures
        r == (s@.len() >= 1 && s@[0] == '/'),
{
    proof {
        reveal_strlit("/");
    }
    let b = starts_with_str(s, "/");
    proof {
        assert("/"@.len() == 1);
        if b {
            assert(s@.subrange(0, 1)[0] == s@[0]);
            assert("/"@[0] == '/');
        } else {
            if s@.len() >= 1 && s@[0] == '/' {
                assert(s@.subrange(0, 1) =~= "/"@);
                assert(false);
            }
        }
    }
    b
}

/// Strip `suffix` from the end of `s`, if it is there.
pub fn strip_suffix_string(s: &str, suffix: &str) -> (r: Option<String>)
    ensures
        r is Some <==> (s@.len() >= suffix@.len() && s@.subrange(
            s@.len() - suffix@.len(),
            s@.len() as int,
        ) == suffix@),
        r is Some ==> r.unwrap()@ == s@.subrange(0, s@.len() - suffix@.len()),
{
    if ends_with_str(s, suffix) {
        let n = s.unicode_len();
        let m = suffix.unicode_len();
        let head = s.substring_char(0, n - m);
        Some(head.to_owned())
    } else {
        None
    }
}

/// Strip `prefix` from the start of `s`, if it is there.
pub fn strip_prefix_string(s: &str, prefix: &str) -> (r: Option<String>)
    ensures
        r is Some <==> (s@.len() >= prefix@.len() && s@.subrange(0, prefix@.len() as int)
            == prefix@),
        r is Some ==> r.unwrap()@ == s@.subrange(prefix@.len() as int, s@.len() as int),
{
    if starts_with_str(s, prefix) {
        let n = s.unicode_len();
        let m = prefix.unicode_len();
        let tail = s.substring_char(m, n);
        Some(tail.to_owned())
    } else {
        None
    }
}

/// Index of the last `/` in `s`, if any.
pub fn last_slash_index(s: &str) -> (r: Option<usize>)
    ensures
        r is Some ==> {
            let i = r.unwrap() as int;
            &&& 0 <= i < s@.len()
            &&& s@[i] == '/'
            &&& forall|j: int| i < j < s@.len() ==> s@[j] != '/'
        },
        r is None ==> forall|j: int| 0 <= j < s@.len() ==> s@[j] != '/',
{
    let n = s.unicode_len();
    let mut k = n;
    while k > 0
        invariant
            0 <= k <= n,
            n == s@.len(),
            forall|j: int| k <= j < s@.len() ==> s@[j] != '/',
        decreases k,
    {
        let c = s.get_char(k - 1);
        if c == '/' {
            return Some(k - 1);
        }
        k = k - 1;
    }
    None
}

/// The characters of `s` after its last `/`; all of `s` when it has none.
pub open spec fn spec_after_last_slash(s: Seq<char>) -> Seq<char>
    decreases s.len(),
{
    if s.len() == 0 {
        s
    } else if s.last() == '/' {
        Seq::empty()
    } else {
        spec_after_last_slash(s.drop_last()).push(s.last())
    }
}

proof fn lemma_after_last_slash_at(s: Seq<char>, i: int)
    requires
        0 <= i < s.len(),
        s[i] == '/',
        forall|j: int| i < j < s.len() ==> s[j] != '/',
    ensures
        spec_after_last_slash(s) == s.subrange(i + 1, s.len() as int),
    decreases s.len(),
{
    if i == s.len() - 1 {
        assert(spec_after_last_slash(s) =~= s.subrange(i + 1, s.len() as int));
    } else {
        lemma_after_last_slash_at(s.drop_last(), i);
        assert(spec_after_last_slash(s.drop_last()).push(s.last()) =~= s.subrange(
            i + 1,
            s.len() as int,
        ));
    }
}

proof fn lemma_after_last_slash_none(s: Seq<char>)
    requires
        forall|j: int| 0 <= j < s.len() ==> s[j] != '/',
    ensures
        spec_after_last_slash(s) == s,
    decreases s.len(),
{
    if s.len() > 0 {
        lemma_after_last_slash_none(s.drop_last());
        assert(spec_after_last_slash(s.drop_last()).push(s.last()) =~= s);
    }
}

/// The part of `s` after its last `/`; all of `s` when it has none.
pub fn after_last_slash(s: &str) -> (r: String)
    ensures
        r@ == spec_after_last_slash(s@),
{
    match last_slash_index(s) {
        Some(i) => {
            let n = s.unicode_len();
            let tail = s.substring_char(i + 1, n);
            proof {
                lemma_after_last_slash_at(s@, i as int);
            }
            tail.to_owned()
        },
        None => {
            proof {
                lemma_after_last_slash_none(s@);
            }
            s.to_owned()
        },
    }
}

} // verus!
