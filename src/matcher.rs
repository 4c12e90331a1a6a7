use vstd::prelude::*;
use crate::models::Host;
use crate::text::{
    contains_seq, contains_str, find_from, is_space, is_space_char, lower_of, lowercase, occurs_at,
    occurs_at_exec, string_views, trimmed,
};

verus! {

/// Index of the first `c` in `s`, or its length when it holds none.
pub open spec fn index_of_char(s: Seq<char>, c: char) -> nat
    decreases s.len(),
{
    if s.len() == 0 {
        0
    } else if s[0] == c {
        0
    } else {
        1 + index_of_char(s.drop_first(), c)
    }
}

proof fn lemma_index_of_char_bound(s: Seq<char>, c: char)
    ensures
        index_of_char(s, c) <= s.len(),
    decreases s.len(),
{
    if s.len() > 0 && s[0] != c {
        lemma_index_of_char_bound(s.drop_first(), c);
    }
}

/// The pieces of `s` between the occurrences of `c`, as `str::split` gives them.
pub open spec fn split_on(s: Seq<char>, c: char) -> Seq<Seq<char>>
    decreases s.len(),
{
    let k = index_of_char(s, c);
    if k >= s.len() {
        seq![s]
    } else {
        seq![s.subrange(0, k as int)] + split_on(s.subrange((k + 1) as int, s.len() as int), c)
    }
}

/// Index of the first white space character of `s`, or its length.
pub open spec fn index_of_space(s: Seq<char>) -> nat
    decreases s.len(),
{
    if s.len() == 0 {
        0
    } else if is_space(s[0]) {
        0
    } else {
        1 + index_of_space(s.drop_first())
    }
}

proof fn lemma_index_of_space_bound(s: Seq<char>)
    ensures
        index_of_space(s) <= s.len(),
    decreases s.len(),
{
    if s.len() > 0 && !is_space(s[0]) {
        lemma_index_of_space_bound(s.drop_first());
    }
}

/// The words of `s`, as `str::split_whitespace` gives them.
pub open spec fn words(s: Seq<char>) -> Seq<Seq<char>>
    decreases s.len(),
{
    let k = index_of_space(s);
    let w = s.subrange(0, k as int);
    let first = if w.len() == 0 {
        Seq::empty()
    } else {
        seq![w]
    };
    if k >= s.len() {
        first
    } else {
        first + words(s.subrange((k + 1) as int, s.len() as int))
    }
}

/// The first index at or after `from` where `n` occurs in `t`.
pub open spec fn first_occurrence(t: Seq<char>, n: Seq<char>, from: int) -> Option<int>
    decreases t.len() + 1 - from,
{
    if from < 0 || from > t.len() {
        None
    } else if occurs_at(t, n, from) {
        Some(from)
    } else {
        first_occurrence(t, n, from + 1)
    }
}

proof fn lemma_first_occurrence(t: Seq<char>, n: Seq<char>, from: int, r: Option<int>)
    requires
        0 <= from,
        match r {
            Some(i) => from <= i && occurs_at(t, n, i) && forall|j: int|
                from <= j < i ==> !occurs_at(t, n, j),
            None => forall|j: int| from <= j ==> !occurs_at(t, n, j),
        },
    ensures
        first_occurrence(t, n, from) == r,
    decreases t.len() + 1 - from,
{
    if from > t.len() {
        if let Some(i) = r {
            assert(!occurs_at(t, n, i));
        }
    } else if !occurs_at(t, n, from) {
        lemma_first_occurrence(t, n, from + 1, r);
    }
}

/// The non-empty parts occur in `t` in their order, each found at its first place
/// after the previous one.
pub open spec fn parts_in_order(parts: Seq<Seq<char>>, t: Seq<char>, idx: int) -> bool
    decreases parts.len(),
{
    if parts.len() == 0 {
        true
    } else if parts[0].len() == 0 {
        parts_in_order(parts.drop_first(), t, idx)
    } else {
        match first_occurrence(t, parts[0], idx) {
            None => false,
            Some(i) => parts_in_order(parts.drop_first(), t, i + parts[0].len()),
        }
    }
}

/// Does the lower-case pattern `p` match the lower-case text `t`? `*` alone matches
/// everything; a pattern without `*` must occur in the text; otherwise the pieces
/// between the `*` must occur in order, the first at the start unless the pattern
/// starts with `*`, the last at the end unless it ends with `*`.
pub open spec fn pattern_matches(p: Seq<char>, t: Seq<char>) -> bool {
    let parts = split_on(p, '*');
    if p == seq!['*'] {
        true
    } else if parts.len() == 1 {
        contains_seq(t, p)
    } else {
        &&& parts_in_order(parts, t, 0)
        &&& (p[0] == '*' || occurs_at(t, parts[0], 0))
        &&& (p.last() == '*' || occurs_at(t, parts.last(), t.len() - parts.last().len()))
    }
}

pub open spec fn wildcard(pat: Seq<char>, text: Seq<char>) -> bool {
    pattern_matches(lower_of(pat), lower_of(text))
}

/// Splits `s` at each `c`.
pub fn split_char(s: &str, c: char) -> (r: Vec<String>)
    ensures
        string_views(r@) == split_on(s@, c),
{
    let n = s.unicode_len();
    let mut out: Vec<String> = Vec::new();
    let mut start: usize = 0;
    assert(s@.subrange(0, n as int) =~= s@);
    loop
        invariant_except_break
            n == s@.len(),
            start <= n,
            string_views(out@) + split_on(s@.subrange(start as int, n as int), c) == split_on(s@, c),
        ensures
            string_views(out@) == split_on(s@, c),
        decreases n - start,
    {
        let ghost rest = s@.subrange(start as int, n as int);
        let mut k = start;
        while k < n && s.get_char(k) != c
            invariant
                n == s@.len(),
                start <= k <= n,
                rest == s@.subrange(start as int, n as int),
                index_of_char(rest, c) == (k - start) + index_of_char(s@.subrange(k as int, n as int), c),
            decreases n - k,
        {
            assert(s@.subrange(k as int, n as int).drop_first() =~= s@.subrange(k + 1, n as int));
            k = k + 1;
        }
        proof {
            lemma_index_of_char_bound(rest, c);
        }
        let piece = String::from_str(s.substring_char(start, k));
        let ghost o0 = string_views(out@);
        out.push(piece);
        assert(string_views(out@) =~= o0.push(piece@));
        assert(piece@ =~= rest.subrange(0, (k - start) as int));
        if k == n {
            assert(split_on(rest, c) == seq![rest]);
            assert(string_views(out@) =~= o0 + split_on(rest, c));
            break;
        }
        assert(s@.subrange(k + 1, n as int) =~= rest.subrange((k - start) + 1, rest.len() as int));
        assert(string_views(out@) + split_on(s@.subrange(k + 1, n as int), c) =~= o0 + split_on(rest, c));
        start = k + 1;
    }
    out
}

/// The words of `s`, split at white space.
pub fn split_words(s: &str) -> (r: Vec<String>)
    ensures
        string_views(r@) == words(s@),
{
    let n = s.unicode_len();
    let mut out: Vec<String> = Vec::new();
    let mut start: usize = 0;
    assert(s@.subrange(0, n as int) =~= s@);
    loop
        invariant_except_break
            n == s@.len(),
            start <= n,
            string_views(out@) + words(s@.subrange(start as int, n as int)) == words(s@),
        ensures
            string_views(out@) == words(s@),
        decreases n - start,
    {
        let ghost rest = s@.subrange(start as int, n as int);
        let mut k = start;
        while k < n && !is_space_char(s.get_char(k))
            invariant
                n == s@.len(),
                start <= k <= n,
                rest == s@.subrange(start as int, n as int),
                index_of_space(rest) == (k - start) + index_of_space(s@.subrange(k as int, n as int)),
            decreases n - k,
        {
            assert(s@.subrange(k as int, n as int).drop_first() =~= s@.subrange(k + 1, n as int));
            k = k + 1;
        }
        proof {
            lemma_index_of_space_bound(rest);
        }
        let ghost o0 = string_views(out@);
        let ghost w = rest.subrange(0, (k - start) as int);
        let ghost first = if w.len() == 0 {
            Seq::<Seq<char>>::empty()
        } else {
            seq![w]
        };
        if k > start {
            let piece = String::from_str(s.substring_char(start, k));
            out.push(piece);
            assert(piece@ =~= w);
            assert(string_views(out@) =~= o0 + first);
        } else {
            assert(string_views(out@) =~= o0 + first);
        }
        if k == n {
            assert(words(rest) == first);
            break;
        }
        assert(s@.subrange(k + 1, n as int) =~= rest.subrange((k - start) + 1, rest.len() as int));
        assert(words(rest) == first + words(s@.subrange(k + 1, n as int)));
        assert(string_views(out@) + words(s@.subrange(k + 1, n as int)) =~= o0 + words(rest));
        start = k + 1;
    }
    out
}

/// Case-insensitive match of `text` against `pat`, where `*` stands for any run of
/// characters.
pub fn wildcard_match(pat: &str, text: &str) -> (r: bool)
    ensures
        r == wildcard(pat@, text@),
{
    let p = lowercase(pat);
    let t = lowercase(text);
    let star = String::from_str("*");
    proof {
        reveal_strlit("*");
    }
    assert(star@ =~= seq!['*']);
    if p == star {
        return true;
    }
    let parts = split_char(p.as_str(), '*');
    let ghost pv = string_views(parts@);
    assert(pv.len() == parts@.len());
    assert(pv.len() >= 1);
    if parts.len() == 1 {
        return contains_str(t.as_str(), p.as_str());
    }
    let tn = t.as_str().unicode_len();
    let mut idx: usize = 0;
    assert(pv.subrange(0, pv.len() as int) =~= pv);
    let mut j: usize = 0;
    while j < parts.len()
        invariant
            pv == string_views(parts@),
            pv == split_on(p@, '*'),
            p@ == lower_of(pat@),
            t@ == lower_of(text@),
            p@ != seq!['*'],
            pv.len() != 1,
            j <= parts@.len(),
            idx <= tn == t@.len(),
            parts_in_order(pv, t@, 0) == parts_in_order(pv.subrange(j as int, pv.len() as int), t@, idx as int),
        decreases parts.len() - j,
    {
        let ghost sub = pv.subrange(j as int, pv.len() as int);
        assert(sub.drop_first() =~= pv.subrange(j + 1, pv.len() as int));
        assert(sub[0] == parts@[j as int]@);
        let part = parts[j].as_str();
        if part.unicode_len() > 0 {
            match find_from(t.as_str(), part, idx) {
                Some(found) => {
                    proof {
                        lemma_first_occurrence(t@, part@, idx as int, Some(found as int));
                    }
                    idx = found + part.unicode_len();
                },
                None => {
                    proof {
                        lemma_first_occurrence(t@, part@, idx as int, None);
                    }
                    assert(!parts_in_order(sub, t@, idx as int));
                    assert(!parts_in_order(split_on(p@, '*'), t@, 0));
                    assert(p@ != seq!['*']);
                    assert(split_on(p@, '*').len() != 1);
                    assert(!pattern_matches(p@, t@));
                    return false;
                },
            }
        }
        j = j + 1;
    }
    let n = p.as_str().unicode_len();
    let first = parts[0].as_str();
    if p.as_str().get_char(0) != '*' && !occurs_at_exec(t.as_str(), first, 0) {
        return false;
    }
    let last = parts[parts.len() - 1].as_str();
    let ln = last.unicode_len();
    if p.as_str().get_char(n - 1) != '*' {
        if ln > tn || !occurs_at_exec(t.as_str(), last, tn - ln) {
            return false;
        }
    }
    true
}

/// Does the host meet the filter word `w`? `name:`, `host:` and `user:` words match
/// the pattern after the colon against that field, `tag:` words against some tag,
/// other words against the name.
pub open spec fn word_matches(h: Host, w: Seq<char>) -> bool {
    let name = seq!['n', 'a', 'm', 'e', ':'];
    let host = seq!['h', 'o', 's', 't', ':'];
    let user = seq!['u', 's', 'e', 'r', ':'];
    let tag = seq!['t', 'a', 'g', ':'];
    if occurs_at(w, name, 0) {
        wildcard(w.subrange(5, w.len() as int), h.name@)
    } else if occurs_at(w, host, 0) {
        wildcard(w.subrange(5, w.len() as int), h.host@)
    } else if occurs_at(w, user, 0) {
        wildcard(w.subrange(5, w.len() as int), h.username@)
    } else if occurs_at(w, tag, 0) {
        match h.tags {
            None => false,
            Some(v) => exists|i: int|
                0 <= i < v@.len() && wildcard(w.subrange(4, w.len() as int), #[trigger] v@[i]@),
        }
    } else {
        wildcard(w, h.name@)
    }
}

pub open spec fn derefs(s: Seq<&Host>) -> Seq<Host> {
    s.map_values(|h: &Host| *h)
}

/// Does the host meet every word of the filter?
pub open spec fn host_passes(h: Host, ws: Seq<Seq<char>>) -> bool {
    forall|i: int| 0 <= i < ws.len() ==> word_matches(h, #[trigger] ws[i])
}

pub open spec fn hosts_passing(hosts: Seq<Host>, ws: Seq<Seq<char>>) -> Seq<Host>
    decreases hosts.len(),
{
    if hosts.len() == 0 {
        hosts
    } else if host_passes(hosts.last(), ws) {
        hosts_passing(hosts.drop_last(), ws).push(hosts.last())
    } else {
        hosts_passing(hosts.drop_last(), ws)
    }
}

fn any_tag_matches(pat: &str, tags: &Option<Vec<String>>) -> (r: bool)
    ensures
        r == match tags {
            None => false,
            Some(v) => exists|i: int| 0 <= i < v@.len() && wildcard(pat@, #[trigger] v@[i]@),
        },
{
    match tags {
        None => false,
        Some(v) => {
            let mut i: usize = 0;
            while i < v.len()
                invariant
                    i <= v@.len(),
                    match tags {
                        Some(w) => w@ == v@,
                        None => false,
                    },
                    forall|j: int| 0 <= j < i ==> !wildcard(pat@, #[trigger] v@[j]@),
                decreases v.len() - i,
            {
                if wildcard_match(pat, v[i].as_str()) {
                    assert(wildcard(pat@, v@[i as int]@));
                    assert(exists|j: int| 0 <= j < v@.len() && wildcard(pat@, #[trigger] v@[j]@));
                    return true;
                }
                i = i + 1;
            }
            false
        },
    }
}

fn word_matches_exec(h: &Host, w: &str) -> (r: bool)
    ensures
        r == word_matches(*h, w@),
{
    proof {
        reveal_strlit("name:");
        reveal_strlit("host:");
        reveal_strlit("user:");
        reveal_strlit("tag:");
    }
    assert("name:"@ =~= seq!['n', 'a', 'm', 'e', ':']);
    assert("host:"@ =~= seq!['h', 'o', 's', 't', ':']);
    assert("user:"@ =~= seq!['u', 's', 'e', 'r', ':']);
    assert("tag:"@ =~= seq!['t', 'a', 'g', ':']);
    let n = w.unicode_len();
    if occurs_at_exec(w, "name:", 0) {
        wildcard_match(w.substring_char(5, n), h.name.as_str())
    } else if occurs_at_exec(w, "host:", 0) {
        wildcard_match(w.substring_char(5, n), h.host.as_str())
    } else if occurs_at_exec(w, "user:", 0) {
        wildcard_match(w.substring_char(5, n), h.username.as_str())
    } else if occurs_at_exec(w, "tag:", 0) {
        any_tag_matches(w.substring_char(4, n), &h.tags)
    } else {
        wildcard_match(w, h.name.as_str())
    }
}

/// The hosts that meet every word of `filter`, such as `tag:prod host:10.* web`, in
/// their order. A filter with no words keeps every host.
pub fn filter_hosts<'a>(hosts: &'a Vec<Host>, filter: &str) -> (r: Vec<&'a Host>)
    ensures
        derefs(r@) == hosts_passing(hosts@, words(filter@)),
{
    let ws = split_words(filter);
    let ghost wv = string_views(ws@);
    let mut r: Vec<&'a Host> = Vec::new();
    let mut i: usize = 0;
    while i < hosts.len()
        invariant
            i <= hosts@.len(),
            wv == string_views(ws@),
            wv == words(filter@),
            derefs(r@) == hosts_passing(hosts@.subrange(0, i as int), wv),
        decreases hosts.len() - i,
    {
        let h = &hosts[i];
        let mut ok = true;
        let mut k: usize = 0;
        while k < ws.len()
            invariant
                wv == string_views(ws@),
                k <= ws@.len(),
                ok == forall|m: int| 0 <= m < k ==> word_matches(*h, #[trigger] wv[m]),
            decreases ws.len() - k,
        {
            let m = word_matches_exec(h, ws[k].as_str());
            assert(wv[k as int] == ws@[k as int]@);
            ok = ok && m;
            k = k + 1;
        }
        let ghost prev = hosts@.subrange(0, i as int);
        assert(hosts@.subrange(0, i + 1) =~= prev.push(*h));
        assert(prev.push(*h).drop_last() =~= prev);
        let ghost r0 = r@;
        if ok {
            r.push(h);
            assert(derefs(r@) =~= derefs(r0).push(*h));
        }
        i = i + 1;
    }
    assert(hosts@.subrange(0, i as int) =~= hosts@);
    r
}

/// The host matches the pattern in its name, address, user or one of its tags.
pub open spec fn host_matches(h: Host, pat: Seq<char>) -> bool {
    wildcard(pat, h.name@) || wildcard(pat, h.host@) || wildcard(pat, h.username@) || match h.tags {
        None => false,
        Some(v) => exists|i: int| 0 <= i < v@.len() && wildcard(pat, #[trigger] v@[i]@),
    }
}

pub open spec fn hosts_matching(hosts: Seq<&Host>, pat: Seq<char>) -> Seq<&Host>
    decreases hosts.len(),
{
    if hosts.len() == 0 {
        hosts
    } else if host_matches(*hosts.last(), pat) {
        hosts_matching(hosts.drop_last(), pat).push(hosts.last())
    } else {
        hosts_matching(hosts.drop_last(), pat)
    }
}

/// The items that match `pattern` in some field, in their order; all of them when the
/// pattern is blank.
pub fn apply_filter<'a>(pattern: &str, items: &[&'a Host]) -> (r: Vec<&'a Host>)
    ensures
        trimmed(pattern@).len() == 0 ==> r@ == items@,
        trimmed(pattern@).len() > 0 ==> r@ == hosts_matching(items@, pattern@),
{
    let n = pattern.unicode_len();
    let (a, b) = crate::text::trim_bounds(pattern, 0, n);
    assert(pattern@.subrange(0, n as int) =~= pattern@);
    let blank = a == b;
    let mut r: Vec<&'a Host> = Vec::new();
    let mut i: usize = 0;
    while i < items.len()
        invariant
            i <= items@.len(),
            blank == (trimmed(pattern@).len() == 0),
            blank ==> r@ == items@.subrange(0, i as int),
            !blank ==> r@ == hosts_matching(items@.subrange(0, i as int), pattern@),
        decreases items.len() - i,
    {
        let h = items[i];
        let ghost prev = items@.subrange(0, i as int);
        assert(items@.subrange(0, i + 1) =~= prev.push(h));
        assert(prev.push(h).drop_last() =~= prev);
        let keep = blank || wildcard_match(pattern, h.name.as_str()) || wildcard_match(
            pattern,
            h.host.as_str(),
        ) || wildcard_match(pattern, h.username.as_str()) || any_tag_matches(pattern, &h.tags);
        if keep {
            r.push(h);
        }
        i = i + 1;
    }
    assert(items@.subrange(0, i as int) =~= items@);
    r
}

/// The hosts whose name contains `name`, in their order.
pub open spec fn hosts_containing(hosts: Seq<Host>, name: Seq<char>) -> Seq<Host>
    decreases hosts.len(),
{
    if hosts.len() == 0 {
        hosts
    } else if contains_seq(hosts.last().name@, name) {
        hosts_containing(hosts.drop_last(), name).push(hosts.last())
    } else {
        hosts_containing(hosts.drop_last(), name)
    }
}

/// The hosts that `connect name` may mean: the host of that exact name if there is
/// one, else every host whose name contains `name`.
pub fn connect_candidates<'a>(hosts: &'a Vec<Host>, name: &str) -> (r: Vec<&'a Host>)
    ensures
        (exists|i: int| 0 <= i < hosts@.len() && #[trigger] hosts@[i].name@ == name@) ==> r@.len()
            == 1 && r@[0].name@ == name@,
        !(exists|i: int| 0 <= i < hosts@.len() && #[trigger] hosts@[i].name@ == name@) ==> derefs(r@)
            == hosts_containing(hosts@, name@),
{
    let target = String::from_str(name);
    let mut i: usize = 0;
    while i < hosts.len()
        invariant
            i <= hosts@.len(),
            target@ == name@,
            forall|j: int| 0 <= j < i ==> #[trigger] hosts@[j].name@ != name@,
        decreases hosts.len() - i,
    {
        if hosts[i].name == target {
            let mut r: Vec<&'a Host> = Vec::new();
            r.push(&hosts[i]);
            return r;
        }
        i = i + 1;
    }
    let mut r: Vec<&'a Host> = Vec::new();
    let mut k: usize = 0;
    while k < hosts.len()
        invariant
            k <= hosts@.len(),
            derefs(r@) == hosts_containing(hosts@.subrange(0, k as int), name@),
        decreases hosts.len() - k,
    {
        let h = &hosts[k];
        let ghost prev = hosts@.subrange(0, k as int);
        assert(hosts@.subrange(0, k + 1) =~= prev.push(*h));
        assert(prev.push(*h).drop_last() =~= prev);
        if contains_str(h.name.as_str(), name) {
            let ghost r0 = r@;
            r.push(h);
            assert(derefs(r@) =~= derefs(r0).push(*h));
        }
        k = k + 1;
    }
    assert(hosts@.subrange(0, k as int) =~= hosts@);
    r
}

/// The words of each comma-separated piece of `arg`, in order: `a, b c,,d` gives
/// `a`, `b`, `c`, `d`.
pub open spec fn tag_words(pieces: Seq<Seq<char>>) -> Seq<Seq<char>>
    decreases pieces.len(),
{
    if pieces.len() == 0 {
        Seq::empty()
    } else {
        tag_words(pieces.drop_last()) + words(pieces.last())
    }
}

/// Splits a command-line tag list at commas and white space, dropping empty pieces.
pub fn parse_tag_list(arg: &str) -> (r: Vec<String>)
    ensures
        string_views(r@) == tag_words(split_on(arg@, ',')),
{
    let pieces = split_char(arg, ',');
    let mut r: Vec<String> = Vec::new();
    let mut i: usize = 0;
    while i < pieces.len()
        invariant
            i <= pieces@.len(),
            string_views(pieces@) == split_on(arg@, ','),
            string_views(r@) == tag_words(string_views(pieces@).subrange(0, i as int)),
        decreases pieces.len() - i,
    {
        let ghost prev = string_views(pieces@).subrange(0, i as int);
        assert(string_views(pieces@).subrange(0, i + 1) =~= prev.push(pieces@[i as int]@));
        assert(prev.push(pieces@[i as int]@).drop_last() =~= prev);
        let ws = split_words(pieces[i].as_str());
        let mut k: usize = 0;
        let ghost r0 = string_views(r@);
        while k < ws.len()
            invariant
                k <= ws@.len(),
                string_views(r@) == r0 + string_views(ws@).subrange(0, k as int),
            decreases ws.len() - k,
        {
            let ghost r1 = string_views(r@);
            r.push(ws[k].clone());
            assert(string_views(r@) =~= r1.push(ws@[k as int]@));
            assert(string_views(ws@).subrange(0, k + 1) =~= string_views(ws@).subrange(0, k as int).push(
                ws@[k as int]@,
            ));
            k = k + 1;
        }
        assert(string_views(ws@).subrange(0, k as int) =~= string_views(ws@));
        i = i + 1;
    }
    assert(string_views(pieces@).subrange(0, i as int) =~= string_views(pieces@));
    r
}

} // verus!
