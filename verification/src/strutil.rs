//! Small verified string helpers: character-exact equality, the
//! fingerprint prefix of a composite key, and comma-splitting with
//! whitespace trimming for the configuration lists.

use vstd::prelude::*;
use vstd::string::StrSliceExecFns;

verus! {

/// Character-by-character string equality.
pub fn str_eq(a: &str, b: &str) -> (r: bool)
    ensures
        r == (a@ == b@),
{
    let n = a.unicode_len();
    if n != b.unicode_len() {
        return false;
    }
    for i in 0..n
        invariant
            n == a@.len(),
            n == b@.len(),
            forall|j: int| 0 <= j < i ==> a@[j] == b@[j],
    {
        if a.get_char(i) != b.get_char(i) {
            return false;
        }
    }
    proof {
        assert(a@ =~= b@);
    }
    true
}

/// Whether some string of `l` has exactly the characters of `x`.
pub open spec fn contains_str(l: Seq<String>, x: Seq<char>) -> bool {
    exists|i: int| 0 <= i < l.len() && l[i]@ == x
}

pub fn vec_contains_str(v: &Vec<String>, x: &str) -> (r: bool)
    ensures
        r == contains_str(v@, x@),
{
    for i in 0..v.len()
        invariant
            forall|j: int| 0 <= j < i ==> v@[j]@ != x@,
    {
        if str_eq(v[i].as_str(), x) {
            return true;
        }
    }
    false
}

/// The characters of `s` before the first occurrence of `c`; all of `s`
/// when `c` does not occur.
pub open spec fn prefix_before(s: Seq<char>, c: char) -> Seq<char>
    decreases s.len(),
{
    if s.len() == 0 {
        s
    } else if s[0] == c {
        Seq::empty()
    } else {
        seq![s[0]] + prefix_before(s.drop_first(), c)
    }
}

/// `prefix_before` determined by an explicit scan position: if no `c`
/// occurs before `i` and either `i` is the end or `s[i] == c`, the prefix
/// is exactly `s[..i]`.
pub proof fn lemma_prefix_before_at(s: Seq<char>, c: char, i: int)
    requires
        0 <= i <= s.len(),
        forall|j: int| 0 <= j < i ==> s[j] != c,
        i < s.len() ==> s[i] == c,
    ensures
        prefix_before(s, c) == s.subrange(0, i),
    decreases s.len(),
{
    if s.len() == 0 {
        assert(prefix_before(s, c) =~= s.subrange(0, i));
    } else if i == 0 {
        if s.len() > 0 && s[0] != c {
            assert(i < s.len());
        }
        assert(prefix_before(s, c) =~= s.subrange(0, 0));
    } else {
        assert(s[0] != c);
        assert forall|j: int| 0 <= j < i - 1 implies s.drop_first()[j] != c by {
            assert(s.drop_first()[j] == s[j + 1]);
        }
        if i - 1 < s.drop_first().len() {
            assert(s.drop_first()[i - 1] == s[i]);
        }
        lemma_prefix_before_at(s.drop_first(), c, i - 1);
        assert(prefix_before(s, c) =~= s.subrange(0, i));
    }
}

/// The fingerprint prefix of a composite key: everything before the first
/// `-`, or the whole key when it has none.
pub fn key_prefix<'a>(s: &'a str) -> (r: &'a str)
    ensures
        r@ == prefix_before(s@, '-'),
{
    let n = s.unicode_len();
    let mut i: usize = 0;
    loop
        invariant
            0 <= i <= n,
            n == s@.len(),
            forall|j: int| 0 <= j < i ==> s@[j] != '-',
        ensures
            0 <= i <= n,
            forall|j: int| 0 <= j < i ==> s@[j] != '-',
            i < n ==> s@[i as int] == '-',
        decreases n - i,
    {
        if i == n {
            break ;
        }
        if s.get_char(i) == '-' {
            break ;
        }
        i = i + 1;
    }
    proof {
        lemma_prefix_before_at(s@, '-', i as int);
    }
    s.substring_char(0, i)
}

/// The whitespace characters stripped by [`trim_str`].
pub open spec fn is_space(c: char) -> bool {
    c == ' ' || c == '\t' || c == '\r' || c == '\n'
}

/// `s` without leading whitespace.
pub open spec fn trim_left(s: Seq<char>) -> Seq<char>
    decreases s.len(),
{
    if s.len() > 0 && is_space(s[0]) {
        trim_left(s.drop_first())
    } else {
        s
    }
}

/// `s` without trailing whitespace.
pub open spec fn trim_right(s: Seq<char>) -> Seq<char>
    decreases s.len(),
{
    if s.len() > 0 && is_space(s.last()) {
        trim_right(s.drop_last())
    } else {
        s
    }
}

/// `s` without leading and trailing whitespace.
pub open spec fn trim_spec(s: Seq<char>) -> Seq<char> {
    trim_right(trim_left(s))
}

proof fn lemma_trim_left_at(s: Seq<char>, a: int)
    requires
        0 <= a <= s.len(),
        forall|j: int| 0 <= j < a ==> is_space(s[j]),
        a < s.len() ==> !is_space(s[a]),
    ensures
        trim_left(s) == s.subrange(a, s.len() as int),
    decreases s.len(),
{
    if s.len() == 0 {
        assert(trim_left(s) =~= s.subrange(a, s.len() as int));
    } else if a == 0 {
        assert(trim_left(s) =~= s.subrange(0, s.len() as int));
    } else {
        assert(is_space(s[0]));
        assert forall|j: int| 0 <= j < a - 1 implies is_space(s.drop_first()[j]) by {
            assert(s.drop_first()[j] == s[j + 1]);
        }
        if a - 1 < s.drop_first().len() {
            assert(s.drop_first()[a - 1] == s[a]);
        }
        lemma_trim_left_at(s.drop_first(), a - 1);
        assert(s.drop_first().subrange(a - 1, s.drop_first().len() as int) =~= s.subrange(
            a,
            s.len() as int,
        ));
    }
}

proof fn lemma_trim_right_at(s: Seq<char>, b: int)
    requires
        0 <= b <= s.len(),
        forall|j: int| b <= j < s.len() ==> is_space(s[j]),
        b > 0 ==> !is_space(s[b - 1]),
    ensures
        trim_right(s) == s.subrange(0, b),
    decreases s.len(),
{
    if s.len() == 0 {
        assert(trim_right(s) =~= s.subrange(0, b));
    } else if b == s.len() {
        assert(!is_space(s.last()));
        assert(trim_right(s) =~= s.subrange(0, s.len() as int));
    } else {
        assert(is_space(s.last()));
        lemma_trim_right_at(s.drop_last(), b);
        assert(s.drop_last().subrange(0, b) =~= s.subrange(0, b));
    }
}

/// Executable trim over the characters of [`is_space`].
pub fn trim_str<'a>(s: &'a str) -> (r: &'a str)
    ensures
        r@ == trim_spec(s@),
{
    let n = s.unicode_len();
    let mut a: usize = 0;
    loop
        invariant
            0 <= a <= n,
            n == s@.len(),
            forall|j: int| 0 <= j < a ==> is_space(s@[j]),
        ensures
            0 <= a <= n,
            forall|j: int| 0 <= j < a ==> is_space(s@[j]),
            a < n ==> !is_space(s@[a as int]),
        decreases n - a,
    {
        if a == n {
            break ;
        }
        let c = s.get_char(a);
        if c == ' ' || c == '\t' || c == '\r' || c == '\n' {
            a = a + 1;
        } else {
            break ;
        }
    }
    let mut b: usize = n;
    loop
        invariant
            a <= b <= n,
            n == s@.len(),
            forall|j: int| 0 <= j < a ==> is_space(s@[j]),
            a < n ==> !is_space(s@[a as int]),
            forall|j: int| b <= j < n ==> is_space(s@[j]),
        ensures
            a <= b <= n,
            forall|j: int| b <= j < n ==> is_space(s@[j]),
            b > a ==> !is_space(s@[b - 1]),
        decreases b,
    {
        if b == a {
            break ;
        }
        let c = s.get_char(b - 1);
        if c == ' ' || c == '\t' || c == '\r' || c == '\n' {
            b = b - 1;
        } else {
            break ;
        }
    }
    proof {
        lemma_trim_left_at(s@, a as int);
        let t = s@.subrange(a as int, n as int);
        if a == b {
            lemma_trim_right_at(t, 0);
        } else {
            assert forall|j: int| b - a <= j < t.len() implies is_space(t[j]) by {
                assert(t[j] == s@[a + j]);
            }
            assert(t[b - a - 1] == s@[b - 1]);
            lemma_trim_right_at(t, b - a);
        }
        assert(t.subrange(0, b - a) =~= s@.subrange(a as int, b as int));
    }
    s.substring_char(a, b)
}

/// Whether `c` occurs in `s`.
pub open spec fn has_char(s: Seq<char>, c: char) -> bool {
    exists|i: int| 0 <= i < s.len() && s[i] == c
}

/// The fields of `s` split on the separator `c`; splitting the empty
/// string yields one empty field, as `str::split` does.
pub open spec fn split_on(s: Seq<char>, c: char) -> Seq<Seq<char>>
    decreases s.len(),
{
    let p = prefix_before(s, c);
    if p.len() < s.len() {
        seq![p] + split_on(s.subrange(p.len() as int + 1, s.len() as int), c)
    } else {
        seq![s]
    }
}

/// The fields of `s` split on commas, each trimmed.
pub open spec fn csv_fields(s: Seq<char>) -> Seq<Seq<char>> {
    split_on(s, ',').map_values(|f: Seq<char>| trim_spec(f))
}

/// Split `s` on every occurrence of `c`.
pub fn split_str(s: &str, c: char) -> (r: Vec<String>)
    ensures
        r@.map_values(|x: String| x@) == split_on(s@, c),
{
    let n = s.unicode_len();
    let mut out: Vec<String> = Vec::new();
    let mut start: usize = 0;
    let mut i: usize = 0;
    proof {
        assert(s@.subrange(0, n as int) =~= s@);
        assert(out@.map_values(|x: String| x@) + split_on(s@, c) =~= split_on(s@, c));
    }
    loop
        invariant
            0 <= start <= i <= n,
            n == s@.len(),
            forall|j: int| start <= j < i ==> s@[j] != c,
            split_on(s@, c) == out@.map_values(|x: String| x@) + split_on(
                s@.subrange(start as int, n as int),
                c,
            ),
        ensures
            start <= n,
            n == s@.len(),
            forall|j: int| start <= j < n ==> s@[j] != c,
            split_on(s@, c) == out@.map_values(|x: String| x@) + split_on(
                s@.subrange(start as int, n as int),
                c,
            ),
        decreases n - i,
    {
        if i == n {
            break ;
        }
        if s.get_char(i) == c {
            let field = s.substring_char(start, i);
            let ghost outv0 = out@;
            let ghost rest = s@.subrange(start as int, n as int);
            let ghost rest2 = s@.subrange(i + 1, n as int);
            out.push(field.to_owned());
            proof {
                assert forall|j: int| 0 <= j < i - start implies rest[j] != c by {
                    assert(rest[j] == s@[start + j]);
                }
                assert(rest[i - start] == s@[i as int]);
                lemma_prefix_before_at(rest, c, i - start);
                let p = prefix_before(rest, c);
                assert(p =~= s@.subrange(start as int, i as int));
                assert(p.len() == i - start);
                assert(rest.subrange(p.len() as int + 1, rest.len() as int) =~= rest2);
                assert(split_on(rest, c) == seq![p] + split_on(rest2, c));
                assert(field@ == s@.subrange(start as int, i as int));
                assert(out@.map_values(|x: String| x@) =~= outv0.map_values(|x: String| x@)
                    + seq![field@]);
                assert(out@.map_values(|x: String| x@) + split_on(rest2, c) =~= outv0.map_values(
                    |x: String| x@,
                ) + split_on(rest, c));
            }
            start = i + 1;
        }
        i = i + 1;
    }
    let field = s.substring_char(start, n);
    let ghost outv0 = out@;
    let ghost rest = s@.subrange(start as int, n as int);
    out.push(field.to_owned());
    proof {
        assert forall|j: int| 0 <= j < rest.len() implies rest[j] != c by {
            assert(rest[j] == s@[start + j]);
        }
        lemma_prefix_before_at(rest, c, rest.len() as int);
        assert(prefix_before(rest, c) == rest.subrange(0, rest.len() as int));
        assert(rest.subrange(0, rest.len() as int) =~= rest);
        assert(split_on(rest, c) == seq![rest]);
        assert(out@.map_values(|x: String| x@) =~= outv0.map_values(|x: String| x@)
            + seq![field@]);
        assert(out@.map_values(|x: String| x@) =~= split_on(s@, c));
    }
    out
}

/// Split `s` on commas and trim each field.
pub fn split_trim_csv(s: &str) -> (r: Vec<String>)
    ensures
        r@.map_values(|x: String| x@) == csv_fields(s@),
{
    let parts = split_str(s, ',');
    let mut out: Vec<String> = Vec::new();
    let n = parts.len();
    for i in 0..n
        invariant
            n == parts@.len(),
            parts@.map_values(|x: String| x@) == split_on(s@, ','),
            out@.map_values(|x: String| x@) =~= csv_fields(s@).subrange(0, i as int),
    {
        let field = trim_str(parts[i].as_str());
        let ghost outv0 = out@;
        out.push(field.to_owned());
        proof {
            assert(parts@.map_values(|x: String| x@)[i as int] == parts@[i as int]@);
            assert(field@ == trim_spec(split_on(s@, ',')[i as int]));
            assert(out@.map_values(|x: String| x@) =~= outv0.map_values(|x: String| x@)
                + seq![field@]);
            assert(out@.map_values(|x: String| x@) =~= csv_fields(s@).subrange(0, i + 1));
        }
    }
    proof {
        assert(csv_fields(s@).subrange(0, csv_fields(s@).len() as int) =~= csv_fields(s@));
    }
    out
}

} // verus!
