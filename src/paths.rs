use vstd::prelude::*;
use vstd::relations::injective_on;
use vstd::set_lib::*;
use crate::text::string_views;

verus! {

/// The path obtained by placing `name` under the remote directory `base`.
pub open spec fn joined_remote(base: Seq<char>, name: Seq<char>) -> Seq<char> {
    if base.len() > 0 && base.last() == '/' {
        base + name
    } else {
        base + seq!['/'] + name
    }
}

/// `s` without the run of `/` at its end.
pub open spec fn trim_trailing_slashes(s: Seq<char>) -> Seq<char>
    decreases s.len(),
{
    if s.len() > 0 && s.last() == '/' {
        trim_trailing_slashes(s.drop_last())
    } else {
        s
    }
}

/// The part of `s` before its last `/`, or `None` when `s` holds no `/`.
pub open spec fn before_last_slash(s: Seq<char>) -> Option<Seq<char>>
    decreases s.len(),
{
    if s.len() == 0 {
        None
    } else if s.last() == '/' {
        Some(s.drop_last())
    } else {
        before_last_slash(s.drop_last())
    }
}

/// The parent directory of a remote path: its last component dropped, `/` when
/// nothing would remain.
pub open spec fn parent_of(path: Seq<char>) -> Seq<char> {
    match before_last_slash(trim_trailing_slashes(path)) {
        None => seq!['/'],
        Some(head) => {
            let h = trim_trailing_slashes(head);
            if h.len() == 0 {
                seq!['/']
            } else {
                h
            }
        },
    }
}

/// `s` inside single quotes, each quote of it written as `'\''`.
pub open spec fn quoted_body(s: Seq<char>) -> Seq<char>
    decreases s.len(),
{
    if s.len() == 0 {
        Seq::empty()
    } else {
        let rest = quoted_body(s.drop_last());
        if s.last() == '\'' {
            rest + seq!['\'', '\\', '\'', '\'']
        } else {
            rest.push(s.last())
        }
    }
}

pub open spec fn shell_quoted(s: Seq<char>) -> Seq<char> {
    seq!['\''] + quoted_body(s) + seq!['\'']
}

/// Places `name` under the remote directory `base` with a single `/` between them.
pub fn join_remote_path(base: &str, name: &str) -> (r: String)
    ensures
        r@ == joined_remote(base@, name@),
{
    let n = base.unicode_len();
    let mut r = String::from_str(base);
    if n > 0 && base.get_char(n - 1) == '/' {
        r.append(name);
        r
    } else {
        r.append("/");
        r.append(name);
        proof {
            reveal_strlit("/");
        }
        r
    }
}

/// Number of characters left in `s[..n]` once the `/` at its end are dropped.
pub(crate) fn trimmed_len(s: &str, n: usize) -> (k: usize)
    requires
        n <= s@.len(),
    ensures
        k <= n,
        s@.subrange(0, k as int) == trim_trailing_slashes(s@.subrange(0, n as int)),
{
    let mut k = n;
    while k > 0 && s.get_char(k - 1) == '/'
        invariant
            k <= n <= s@.len(),
            trim_trailing_slashes(s@.subrange(0, k as int)) == trim_trailing_slashes(
                s@.subrange(0, n as int),
            ),
        decreases k,
    {
        assert(s@.subrange(0, k as int).drop_last() =~= s@.subrange(0, k - 1));
        k = k - 1;
    }
    k
}

/// The parent of a remote path; `/` for `/` itself and for a path with a single component.
pub fn parent_remote_path(path: &str) -> (r: String)
    ensures
        r@ == parent_of(path@),
{
    let n = path.unicode_len();
    let t = trimmed_len(path, n);
    assert(path@.subrange(0, n as int) =~= path@);
    let mut j = t;
    while j > 0 && path.get_char(j - 1) != '/'
        invariant
            j <= t <= n == path@.len(),
            before_last_slash(path@.subrange(0, j as int)) == before_last_slash(
                path@.subrange(0, t as int),
            ),
        decreases j,
    {
        assert(path@.subrange(0, j as int).drop_last() =~= path@.subrange(0, j - 1));
        j = j - 1;
    }
    if j == 0 {
        proof {
            reveal_strlit("/");
        }
        assert(path@.subrange(0, 0) =~= Seq::<char>::empty());
        String::from_str("/")
    } else {
        assert(path@.subrange(0, j as int).drop_last() =~= path@.subrange(0, j - 1));
        let h = trimmed_len(path, j - 1);
        if h == 0 {
            proof {
                reveal_strlit("/");
            }
            String::from_str("/")
        } else {
            String::from_str(path.substring_char(0, h))
        }
    }
}

/// Wraps `path` in single quotes for a POSIX shell, closing and reopening the quotes
/// around each quote that it holds. Other metacharacters are not treated specially.
pub fn shell_escape(path: &str) -> (r: String)
    ensures
        r@ == shell_quoted(path@),
{
    proof {
        reveal_strlit("'");
    }
    let n = path.unicode_len();
    let mut r = String::from_str("'");
    let mut i: usize = 0;
    while i < n
        invariant
            i <= n == path@.len(),
            r@ == seq!['\''] + quoted_body(path@.subrange(0, i as int)),
        decreases n - i,
    {
        let ghost pre = path@.subrange(0, i as int);
        let ghost r0 = r@;
        let c = path.get_char(i);
        assert(path@.subrange(0, i + 1) =~= pre.push(c));
        assert(pre.push(c).drop_last() =~= pre);
        if c == '\'' {
            proof {
                reveal_strlit("\\");
                reveal_strlit("'");
            }
            assert("\\"@ =~= seq!['\\']);
            r.append("'");
            r.append("\\");
            r.append("'");
            r.append("'");
            assert(r@ =~= r0 + seq!['\'', '\\', '\'', '\'']);
            assert(quoted_body(pre.push(c)) == quoted_body(pre) + seq!['\'', '\\', '\'', '\'']);
        } else {
            let one = path.substring_char(i, i + 1);
            assert(one@ =~= seq![c]);
            r.append(one);
            assert(quoted_body(pre.push(c)) == quoted_body(pre).push(c));
        }
        i = i + 1;
        assert(r@ =~= seq!['\''] + quoted_body(path@.subrange(0, i as int)));
    }
    assert(path@.subrange(0, n as int) =~= path@);
    r.append("'");
    r
}

/// Index of the first `.` of `s`, or its length when it holds none.
pub open spec fn first_dot(s: Seq<char>) -> nat
    decreases s.len(),
{
    if s.len() == 0 {
        0
    } else if s[0] == '.' {
        0
    } else {
        1 + first_dot(s.drop_first())
    }
}

pub open spec fn name_base(s: Seq<char>) -> Seq<char> {
    s.subrange(0, first_dot(s) as int)
}

pub open spec fn name_suffix(s: Seq<char>) -> Seq<char> {
    s.subrange(first_dot(s) as int, s.len() as int)
}

pub open spec fn digit_char(d: nat) -> char {
    seq!['0', '1', '2', '3', '4', '5', '6', '7', '8', '9'][d as int]
}

/// Decimal notation of `n`, without leading zeros.
pub open spec fn decimal(n: nat) -> Seq<char>
    decreases n,
{
    if n < 10 {
        seq![digit_char(n)]
    } else {
        decimal(n / 10).push(digit_char(n % 10))
    }
}

/// The `n`-th name tried for a download of `file`: `file` itself, then
/// `base (n)suffix` where `suffix` starts at the first `.` of `file`.
pub open spec fn candidate_name(file: Seq<char>, n: nat) -> Seq<char> {
    if n == 0 {
        file
    } else {
        name_base(file) + seq![' ', '('] + decimal(n) + seq![')'] + name_suffix(file)
    }
}

/// `name` placed in the local directory `dir`.
pub open spec fn joined_local(dir: Seq<char>, name: Seq<char>) -> Seq<char> {
    if dir.len() == 0 {
        name
    } else {
        joined_remote(dir, name)
    }
}

/// The first candidate name for `file` that is not among `taken`.
pub open spec fn is_first_free(file: Seq<char>, taken: Seq<Seq<char>>, n: nat) -> bool {
    &&& !taken.contains(candidate_name(file, n))
    &&& forall|m: nat| m < n ==> taken.contains(#[trigger] candidate_name(file, m))
}

proof fn lemma_first_dot_bound(s: Seq<char>)
    ensures
        first_dot(s) <= s.len(),
        first_dot(s) < s.len() ==> s[first_dot(s) as int] == '.',
        forall|i: int| 0 <= i < first_dot(s) ==> s[i] != '.',
    decreases s.len(),
{
    if s.len() > 0 && s[0] != '.' {
        lemma_first_dot_bound(s.drop_first());
        assert forall|i: int| 0 <= i < first_dot(s) implies s[i] != '.' by {
            if i > 0 {
                assert(s[i] == s.drop_first()[i - 1]);
            }
        }
    }
}

proof fn lemma_decimal_nonempty(n: nat)
    ensures
        decimal(n).len() >= 1,
        n >= 10 ==> decimal(n).len() >= 2,
    decreases n,
{
    if n >= 10 {
        lemma_decimal_nonempty(n / 10);
    }
}

proof fn lemma_digit_char_injective(a: nat, b: nat)
    requires
        a < 10,
        b < 10,
        digit_char(a) == digit_char(b),
    ensures
        a == b,
{
}

proof fn lemma_decimal_injective(a: nat, b: nat)
    requires
        decimal(a) == decimal(b),
    ensures
        a == b,
    decreases a,
{
    lemma_decimal_nonempty(a);
    lemma_decimal_nonempty(b);
    if a < 10 && b < 10 {
        assert(decimal(a)[0] == digit_char(a));
        assert(decimal(b)[0] == digit_char(b));
        lemma_digit_char_injective(a, b);
    } else if a >= 10 && b >= 10 {
        assert(decimal(a).last() == digit_char(a % 10));
        assert(decimal(b).last() == digit_char(b % 10));
        lemma_digit_char_injective(a % 10, b % 10);
        assert(decimal(a).drop_last() =~= decimal(a / 10));
        assert(decimal(b).drop_last() =~= decimal(b / 10));
        lemma_decimal_injective(a / 10, b / 10);
    }
}

proof fn lemma_candidates_distinct(file: Seq<char>, a: nat, b: nat)
    requires
        candidate_name(file, a) == candidate_name(file, b),
    ensures
        a == b,
{
    let base = name_base(file) + seq![' ', '('];
    let tail = seq![')'] + name_suffix(file);
    lemma_first_dot_bound(file);
    assert(file =~= name_base(file) + name_suffix(file));
    if a != 0 {
        lemma_decimal_nonempty(a);
        assert(candidate_name(file, a) =~= base + decimal(a) + tail);
    }
    if b != 0 {
        lemma_decimal_nonempty(b);
        assert(candidate_name(file, b) =~= base + decimal(b) + tail);
    }
    if a != 0 && b != 0 {
        let ca = candidate_name(file, a);
        let cb = candidate_name(file, b);
        assert(decimal(a) =~= ca.subrange(base.len() as int, (base.len() + decimal(a).len()) as int));
        assert(decimal(b) =~= cb.subrange(base.len() as int, (base.len() + decimal(b).len()) as int));
        lemma_decimal_injective(a, b);
    }
}

/// Among the first `taken.len() + 1` candidate names, at least one is not taken.
proof fn lemma_some_candidate_free(file: Seq<char>, taken: Seq<Seq<char>>)
    ensures
        exists|n: nat| n <= taken.len() && !taken.contains(#[trigger] candidate_name(file, n)),
{
    if forall|n: nat| n <= taken.len() ==> taken.contains(#[trigger] candidate_name(file, n)) {
        let len = taken.len() as int;
        let f = |i: int| candidate_name(file, i as nat);
        let idx = set_int_range(0, len + 1);
        lemma_int_range(0, len + 1);
        assert(injective_on(f, idx)) by {
            assert forall|x: int, y: int|
                idx.contains(x) && idx.contains(y) && #[trigger] f(x) == #[trigger] f(y) implies x
                == y by {
                lemma_candidates_distinct(file, x as nat, y as nat);
            }
        }
        let image = idx.map(f);
        lemma_map_size(idx, image, f);
        assert(image.subset_of(taken.to_set())) by {
            assert forall|c: Seq<char>| image.contains(c) implies taken.to_set().contains(c) by {
                let i = choose|i: int| idx.contains(i) && f(i) == c;
                assert(taken.contains(candidate_name(file, i as nat)));
            }
        }
        taken.lemma_cardinality_of_set();
        lemma_len_subset(image, taken.to_set());
    }
}

/// Decimal notation of `n`.
pub fn decimal_string(n: u64) -> (r: String)
    ensures
        r@ == decimal(n as nat),
    decreases n,
{
    let digits = "0123456789";
    proof {
        reveal_strlit("0123456789");
    }
    let d = (n % 10) as usize;
    let one = digits.substring_char(d, d + 1);
    assert(one@ =~= seq![digit_char(d as nat)]);
    if n < 10 {
        String::from_str(one)
    } else {
        let mut r = decimal_string(n / 10);
        r.append(one);
        r
    }
}

/// Index of the first `.` of `s`, or its length when it holds none.
fn find_first_dot(s: &str) -> (k: usize)
    ensures
        k == first_dot(s@),
{
    let n = s.unicode_len();
    let mut k: usize = 0;
    assert(s@.subrange(0, n as int) =~= s@);
    while k < n && s.get_char(k) != '.'
        invariant
            k <= n == s@.len(),
            first_dot(s@) == k + first_dot(s@.subrange(k as int, n as int)),
        decreases n - k,
    {
        assert(s@.subrange(k as int, n as int).drop_first() =~= s@.subrange(k + 1, n as int));
        k = k + 1;
    }
    k
}

/// The `n`-th name tried for a download of `file_name`.
pub fn candidate(file_name: &str, n: u64) -> (r: String)
    ensures
        r@ == candidate_name(file_name@, n as nat),
{
    if n == 0 {
        String::from_str(file_name)
    } else {
        let len = file_name.unicode_len();
        let k = find_first_dot(file_name);
        proof {
            lemma_first_dot_bound(file_name@);
            reveal_strlit(" (");
            reveal_strlit(")");
        }
        let mut r = String::from_str(file_name.substring_char(0, k));
        r.append(" (");
        let num = decimal_string(n);
        r.append(num.as_str());
        r.append(")");
        r.append(file_name.substring_char(k, len));
        r
    }
}

fn contains_name(taken: &Vec<String>, name: &String) -> (r: bool)
    ensures
        r == string_views(taken@).contains(name@),
{
    let mut i: usize = 0;
    while i < taken.len()
        invariant
            i <= taken@.len(),
            forall|j: int| 0 <= j < i ==> taken@[j]@ != name@,
        decreases taken.len() - i,
    {
        if taken[i] == *name {
            assert(string_views(taken@)[i as int] == name@);
            return true;
        }
        i = i + 1;
    }
    assert(!string_views(taken@).contains(name@)) by {
        if string_views(taken@).contains(name@) {
            let j = choose|j: int| 0 <= j < string_views(taken@).len() && string_views(taken@)[j] == name@;
            assert(taken@[j]@ == name@);
        }
    }
    false
}

/// Places `name` in the local directory `dir`.
pub fn join_local_path(dir: &str, name: &str) -> (r: String)
    ensures
        r@ == joined_local(dir@, name@),
{
    if dir.unicode_len() == 0 {
        String::from_str(name)
    } else {
        join_remote_path(dir, name)
    }
}

/// The name under which `file_name` can be saved in a directory whose entries are
/// `taken`: `file_name` itself when free, else the first free `base (n)suffix`, the
/// suffix starting at the first `.` (so `a.tar.gz` gives `a (1).tar.gz`).
pub fn unique_name(file_name: &str, taken: &Vec<String>) -> (r: String)
    ensures
        exists|n: nat| #[trigger] is_first_free(file_name@, string_views(taken@), n)
            && r@ == candidate_name(file_name@, n),
{
    let ghost names = string_views(taken@);
    proof {
        lemma_some_candidate_free(file_name@, names);
        assert(names.len() == taken@.len());
    }
    let mut n: u64 = 0;
    while (n as usize) < taken.len()
        invariant
            n <= taken@.len(),
            names == string_views(taken@),
            names.len() == taken@.len(),
            forall|m: nat| m < n ==> names.contains(#[trigger] candidate_name(file_name@, m)),
        decreases taken.len() - n as usize,
    {
        let c = candidate(file_name, n);
        if !contains_name(taken, &c) {
            assert(is_first_free(file_name@, names, n as nat));
            return c;
        }
        n = n + 1;
    }
    // all of the first `taken.len()` candidates are taken, so the next one is free
    let c = candidate(file_name, n);
    proof {
        let k = choose|k: nat| k <= names.len() && !names.contains(#[trigger] candidate_name(file_name@, k));
        assert(k == n);
        assert(is_first_free(file_name@, names, n as nat));
    }
    c
}

/// The local path for saving `file_name` into `dir`, whose entries are `taken`: a path
/// that names no entry of `dir`, chosen as `unique_name` chooses.
pub fn unique_local_path(dir: &str, file_name: &str, taken: &Vec<String>) -> (r: String)
    ensures
        exists|n: nat| #[trigger] is_first_free(file_name@, string_views(taken@), n)
            && r@ == joined_local(dir@, candidate_name(file_name@, n)),
{
    let name = unique_name(file_name, taken);
    join_local_path(dir, name.as_str())
}

/// The name chosen for a download names no entry that the directory held, and it is
/// the `k`-th candidate exactly when the candidates before the `k`-th are all taken and
/// the `k`-th is not (so with `a.png`, `a (1).png` and `a (2).png` present, `a (3).png`).
pub proof fn lemma_unique_name_is_free(file: Seq<char>, taken: Seq<Seq<char>>, n: nat, k: nat)
    requires
        is_first_free(file, taken, n),
    ensures
        !taken.contains(candidate_name(file, n)),
        (!taken.contains(candidate_name(file, k)) && forall|m: nat|
            m < k ==> taken.contains(#[trigger] candidate_name(file, m))) ==> n == k,
{
    if !taken.contains(candidate_name(file, k)) && forall|m: nat|
        m < k ==> taken.contains(#[trigger] candidate_name(file, m)) {
        if n < k {
            assert(taken.contains(candidate_name(file, n)));
        } else if n > k {
            assert(taken.contains(candidate_name(file, k)));
        }
    }
}

} // verus!
