use vstd::prelude::*;
use crate::paths::decimal_string;
use crate::text::{
    lemma_char_code_injective, lemma_lex_total, lemma_lex_trans, lex_le, lex_le_str, string_views, trim_str,
    trimmed,
};

verus! {

/// One SSH host entry.
pub struct Host {
    /// Alias, the key of the entry.
    pub name: String,
    /// Host name or address.
    pub host: String,
    pub port: u16,
    pub username: String,
    /// Path of the private key, if one is set.
    pub identity_file: Option<String>,
    pub proxy_jump: Option<String>,
    pub tags: Option<Vec<String>>,
    /// Folder the entry is filed under, if any.
    pub folder: Option<String>,
}

/// The hosts, keyed by their `name`, and the folders that exist.
pub struct Database {
    pub hosts: Vec<Host>,
    pub folders: Vec<String>,
}

impl Database {
    /// No two hosts have the same name.
    pub open spec fn wf(&self) -> bool {
        forall|i: int, j: int|
            0 <= i < j < self.hosts@.len() ==> #[trigger] self.hosts@[i].name@
                != #[trigger] self.hosts@[j].name@
    }

    pub fn empty() -> (r: Database)
        ensures
            r.wf(),
            r.hosts@.len() == 0,
            r.folders@.len() == 0,
    {
        Database { hosts: Vec::new(), folders: Vec::new() }
    }

    /// The position of the first host named `name`.
    pub open spec fn find_spec(&self, name: Seq<char>) -> Option<int> {
        if exists|i: int| 0 <= i < self.hosts@.len() && #[trigger] self.hosts@[i].name@ == name {
            Some(
                choose|i: int|
                    0 <= i < self.hosts@.len() && #[trigger] self.hosts@[i].name@ == name && forall|
                        j: int,
                    | 0 <= j < i ==> #[trigger] self.hosts@[j].name@ != name,
            )
        } else {
            None
        }
    }

    /// The position of the first host named `name`.
    pub fn find(&self, name: &str) -> (r: Option<usize>)
        ensures
            match r {
                Some(i) => i < self.hosts@.len() && self.hosts@[i as int].name@ == name@,
                None => forall|i: int| 0 <= i < self.hosts@.len() ==> #[trigger] self.hosts@[i].name@ != name@,
            },
            r matches Some(i) ==> forall|j: int| 0 <= j < i ==> #[trigger] self.hosts@[j].name@ != name@,
            match r {
                Some(i) => self.find_spec(name@) == Some(i as int),
                None => self.find_spec(name@) is None,
            },
    {
        let target = String::from_str(name);
        let mut i: usize = 0;
        while i < self.hosts.len()
            invariant
                i <= self.hosts@.len(),
                target@ == name@,
                forall|j: int| 0 <= j < i ==> #[trigger] self.hosts@[j].name@ != name@,
            decreases self.hosts.len() - i,
        {
            if self.hosts[i].name == target {
                proof {
                    let k = i as int;
                    assert(0 <= k < self.hosts@.len() && self.hosts@[k].name@ == name@ && forall|j: int|
                        0 <= j < k ==> #[trigger] self.hosts@[j].name@ != name@);
                    let c = choose|c: int|
                        0 <= c < self.hosts@.len() && #[trigger] self.hosts@[c].name@ == name@ && forall|
                            j: int,
                        | 0 <= j < c ==> #[trigger] self.hosts@[j].name@ != name@;
                    if c < k {
                        assert(self.hosts@[c].name@ != name@);
                    } else if c > k {
                        assert(self.hosts@[k].name@ != name@);
                    }
                }
                return Some(i);
            }
            i = i + 1;
        }
        None
    }
}

/// The port used when none is given.
pub fn default_port() -> (r: u16)
    ensures
        r == 22,
{
    22
}

/// The user name used when none is given.
pub fn default_username() -> (r: String)
    ensures
        r@ == "root"@,
{
    String::from_str("root")
}

/// The strings of `v` with `,` between them.
pub open spec fn comma_joined(v: Seq<Seq<char>>) -> Seq<char>
    decreases v.len(),
{
    if v.len() == 0 {
        Seq::empty()
    } else if v.len() == 1 {
        v[0]
    } else {
        comma_joined(v.drop_last()) + seq![','] + v.last()
    }
}

/// The tags for display: joined with `,`, empty when there are none.
pub fn tags_to_string(tags: &Option<Vec<String>>) -> (r: String)
    ensures
        r@ == match tags {
            None => Seq::empty(),
            Some(v) => comma_joined(string_views(v@)),
        },
{
    match tags {
        None => String::new(),
        Some(v) => {
            let mut r = String::new();
            let mut i: usize = 0;
            while i < v.len()
                invariant
                    i <= v@.len(),
                    r@ == comma_joined(string_views(v@.subrange(0, i as int))),
                decreases v.len() - i,
            {
                let ghost prev = string_views(v@.subrange(0, i as int));
                assert(string_views(v@.subrange(0, i + 1)) =~= prev.push(v@[i as int]@));
                assert(prev.push(v@[i as int]@).drop_last() =~= prev);
                if i > 0 {
                    r.append(",");
                    proof {
                        reveal_strlit(",");
                    }
                }
                r.append(v[i].as_str());
                i = i + 1;
            }
            assert(v@.subrange(0, i as int) =~= v@);
            r
        },
    }
}

/// The port written in decimal.
pub fn port_string(port: u16) -> (r: String)
    ensures
        r@ == crate::paths::decimal(port as nat),
{
    decimal_string(port as u64)
}

/// `c` with ASCII upper-case letters made lower-case.
pub open spec fn ascii_lower(c: char) -> char {
    if 'A' <= c <= 'Z' {
        ((c as u32) + 32) as char
    } else {
        c
    }
}

/// `a` and `b` are equal but for the case of ASCII letters, as
/// `str::eq_ignore_ascii_case` decides.
pub open spec fn same_ignoring_ascii_case(a: Seq<char>, b: Seq<char>) -> bool {
    a.len() == b.len() && forall|i: int| 0 <= i < a.len() ==> ascii_lower(#[trigger] a[i]) == ascii_lower(b[i])
}

fn ascii_lower_char(c: char) -> (r: u32)
    ensures
        r == ascii_lower(c) as u32,
{
    if 'A' <= c && c <= 'Z' {
        (c as u32) + 32
    } else {
        c as u32
    }
}

pub fn eq_ignore_case(a: &str, b: &str) -> (r: bool)
    ensures
        r == same_ignoring_ascii_case(a@, b@),
{
    let n = a.unicode_len();
    if n != b.unicode_len() {
        return false;
    }
    let mut i: usize = 0;
    while i < n
        invariant
            n == a@.len() == b@.len(),
            i <= n,
            forall|j: int| 0 <= j < i ==> ascii_lower(#[trigger] a@[j]) == ascii_lower(b@[j]),
        decreases n - i,
    {
        let x = ascii_lower_char(a.get_char(i));
        let y = ascii_lower_char(b.get_char(i));
        if x != y {
            assert(ascii_lower(a@[i as int]) != ascii_lower(b@[i as int]));
            return false;
        }
        assert(ascii_lower(a@[i as int]) == ascii_lower(b@[i as int])) by {
            assert(ascii_lower(a@[i as int]) as u32 == ascii_lower(b@[i as int]) as u32);
        }
        i = i + 1;
    }
    true
}

pub open spec fn matches_any(t: Seq<char>, set: Seq<Seq<char>>) -> bool {
    exists|i: int| 0 <= i < set.len() && same_ignoring_ascii_case(#[trigger] set[i], t)
}

/// `set` with each of `tags` appended, in order, unless it is already there, ASCII case
/// ignored.
pub open spec fn tags_added(set: Seq<Seq<char>>, tags: Seq<Seq<char>>) -> Seq<Seq<char>>
    decreases tags.len(),
{
    if tags.len() == 0 {
        set
    } else {
        let before = tags_added(set, tags.drop_last());
        if matches_any(tags.last(), before) {
            before
        } else {
            before.push(tags.last())
        }
    }
}

/// The tags of `set` that match none of `tags`, ASCII case ignored.
pub open spec fn tags_kept(set: Seq<Seq<char>>, tags: Seq<Seq<char>>) -> Seq<Seq<char>>
    decreases set.len(),
{
    if set.len() == 0 {
        set
    } else if matches_any(set.last(), tags) {
        tags_kept(set.drop_last(), tags)
    } else {
        tags_kept(set.drop_last(), tags).push(set.last())
    }
}

pub open spec fn none_if_empty(s: Seq<Seq<char>>) -> Option<Seq<Seq<char>>> {
    if s.len() == 0 {
        None
    } else {
        Some(s)
    }
}

pub open spec fn tag_list_view(o: Option<Vec<String>>) -> Option<Seq<Seq<char>>> {
    match o {
        Some(v) => Some(string_views(v@)),
        None => None,
    }
}

fn find_ignoring_case(set: &Vec<String>, t: &str) -> (r: bool)
    ensures
        r == matches_any(t@, string_views(set@)),
{
    let mut i: usize = 0;
    while i < set.len()
        invariant
            i <= set@.len(),
            forall|j: int| 0 <= j < i ==> !same_ignoring_ascii_case(#[trigger] string_views(set@)[j], t@),
        decreases set.len() - i,
    {
        if eq_ignore_case(set[i].as_str(), t) {
            assert(same_ignoring_ascii_case(string_views(set@)[i as int], t@));
            return true;
        }
        i = i + 1;
    }
    false
}

/// The tags after adding `tags` to `existing`: each one not already there (ASCII case
/// ignored) is appended; `None` when no tag is left.
pub fn add_tags(existing: Option<Vec<String>>, tags: Vec<String>) -> (r: Option<Vec<String>>)
    ensures
        tag_list_view(r) == none_if_empty(
            tags_added(tag_list_view(existing).unwrap_or(Seq::empty()), string_views(tags@)),
        ),
{
    let ghost base = tag_list_view(existing).unwrap_or(Seq::empty());
    let mut set = match existing {
        Some(v) => v,
        None => Vec::new(),
    };
    assert(string_views(set@) =~= base);
    let mut i: usize = 0;
    while i < tags.len()
        invariant
            i <= tags@.len(),
            string_views(set@) == tags_added(base, string_views(tags@).subrange(0, i as int)),
        decreases tags.len() - i,
    {
        let ghost prev = string_views(tags@).subrange(0, i as int);
        assert(string_views(tags@).subrange(0, i + 1) =~= prev.push(tags@[i as int]@));
        assert(prev.push(tags@[i as int]@).drop_last() =~= prev);
        if !find_ignoring_case(&set, tags[i].as_str()) {
            let ghost s0 = string_views(set@);
            set.push(tags[i].clone());
            assert(string_views(set@) =~= s0.push(tags@[i as int]@));
        }
        i = i + 1;
    }
    assert(string_views(tags@).subrange(0, i as int) =~= string_views(tags@));
    if set.len() == 0 {
        None
    } else {
        Some(set)
    }
}

/// The tags after removing from `existing` those that match one of `tags`, ASCII case
/// ignored; `None` when no tag is left.
pub fn remove_tags(existing: Option<Vec<String>>, tags: &Vec<String>) -> (r: Option<Vec<String>>)
    ensures
        tag_list_view(r) == match existing {
            Some(v) => none_if_empty(tags_kept(string_views(v@), string_views(tags@))),
            None => None,
        },
{
    match existing {
        None => None,
        Some(v) => {
            let mut kept: Vec<String> = Vec::new();
            let mut i: usize = 0;
            while i < v.len()
                invariant
                    i <= v@.len(),
                    string_views(kept@) == tags_kept(string_views(v@).subrange(0, i as int), string_views(tags@)),
                decreases v.len() - i,
            {
                let ghost prev = string_views(v@).subrange(0, i as int);
                assert(string_views(v@).subrange(0, i + 1) =~= prev.push(v@[i as int]@));
                assert(prev.push(v@[i as int]@).drop_last() =~= prev);
                let mut hit = false;
                let mut k: usize = 0;
                while k < tags.len()
                    invariant
                        k <= tags@.len(),
                        i < v@.len(),
                        hit == exists|j: int| 0 <= j < k && same_ignoring_ascii_case(#[trigger] string_views(tags@)[j], v@[i as int]@),
                    decreases tags.len() - k,
                {
                    if eq_ignore_case(tags[k].as_str(), v[i].as_str()) {
                        assert(same_ignoring_ascii_case(string_views(tags@)[k as int], v@[i as int]@));
                        hit = true;
                    }
                    k = k + 1;
                }
                if !hit {
                    let ghost k0 = string_views(kept@);
                    kept.push(v[i].clone());
                    assert(string_views(kept@) =~= k0.push(v@[i as int]@));
                }
                i = i + 1;
            }
            assert(string_views(v@).subrange(0, i as int) =~= string_views(v@));
            if kept.len() == 0 {
                None
            } else {
                Some(kept)
            }
        },
    }
}

/// Each name comes before the next in code point order, and no name repeats.
pub open spec fn strictly_sorted(s: Seq<Seq<char>>) -> bool {
    forall|i: int, j: int|
        0 <= i < j < s.len() ==> lex_le(#[trigger] s[i], #[trigger] s[j]) && s[i] != s[j]
}

proof fn lemma_lex_antisym(a: Seq<char>, b: Seq<char>)
    requires
        lex_le(a, b),
        lex_le(b, a),
    ensures
        a == b,
    decreases a.len(),
{
    if a.len() > 0 && b.len() > 0 {
        assert((a[0] as u32) == (b[0] as u32));
        lemma_char_code_injective(a[0], b[0]);
        lemma_lex_antisym(a.drop_first(), b.drop_first());
        assert(a =~= seq![a[0]] + a.drop_first());
        assert(b =~= seq![b[0]] + b.drop_first());
        assert(a =~= b);
    } else if a.len() == 0 && b.len() > 0 {
        assert(!lex_le(b, a));
    } else if b.len() == 0 {
        assert(a =~= b);
    }
}

/// The names of `v` sorted in code point order, each once.
pub fn sort_unique(v: &Vec<String>) -> (r: Vec<String>)
    ensures
        strictly_sorted(string_views(r@)),
        string_views(r@).to_set() == string_views(v@).to_set(),
{
    let mut r: Vec<String> = Vec::new();
    let mut i: usize = 0;
    while i < v.len()
        invariant
            i <= v@.len(),
            strictly_sorted(string_views(r@)),
            string_views(r@).to_set() == string_views(v@.subrange(0, i as int)).to_set(),
        decreases v.len() - i,
    {
        let x = &v[i];
        let ghost rv = string_views(r@);
        assert(string_views(v@.subrange(0, i + 1)) =~= string_views(v@.subrange(0, i as int)).push(x@));
        let mut p: usize = 0;
        while p < r.len() && lex_le_str(r[p].as_str(), x.as_str())
            invariant
                p <= r@.len(),
                rv == string_views(r@),
                forall|k: int| 0 <= k < p ==> lex_le(#[trigger] rv[k], x@),
            decreases r.len() - p,
        {
            p = p + 1;
        }
        if p > 0 && r[p - 1] == *x {
            assert(rv[p - 1] == x@);
            assert(rv.to_set().insert(x@) =~= rv.to_set());
        } else {
            proof {
                if p < rv.len() {
                    lemma_lex_total(rv[p as int], x@);
                }
            }
            r.insert(p, x.clone());
            assert(string_views(r@) =~= rv.insert(p as int, x@));
            let ghost nv = string_views(r@);
            assert forall|a: int, b: int| 0 <= a < b < nv.len() implies lex_le(#[trigger] nv[a], #[trigger] nv[b])
                && nv[a] != nv[b] by {
                if b < p {
                } else if a < p && b == p {
                    if a < p - 1 {
                        assert(lex_le(rv[a], rv[p - 1]) && rv[a] != rv[p - 1]);
                        if rv[a] == x@ {
                            lemma_lex_antisym(rv[p - 1], x@);
                        }
                    }
                } else if a < p && b > p {
                    assert(lex_le(rv[a], rv[b - 1]) && rv[a] != rv[b - 1]);
                } else if a == p {
                    assert(x@ != rv[p as int]) by {
                        if x@ == rv[p as int] {
                            lemma_lex_total(x@, x@);
                        }
                    }
                    if b - 1 > p {
                        assert(lex_le(rv[p as int], rv[b - 1]) && rv[p as int] != rv[b - 1]);
                        lemma_lex_trans(x@, rv[p as int], rv[b - 1]);
                        if x@ == rv[b - 1] {
                            lemma_lex_antisym(rv[p as int], rv[b - 1]);
                        }
                    }
                } else {
                    assert(lex_le(rv[a - 1], rv[b - 1]) && rv[a - 1] != rv[b - 1]);
                }
            }
            assert(nv.to_set() =~= rv.to_set().insert(x@)) by {
                assert forall|e: Seq<char>| nv.to_set().contains(e) <==> rv.to_set().insert(x@).contains(e) by {
                    if nv.to_set().contains(e) {
                        let k = choose|k: int| 0 <= k < nv.len() && nv[k] == e;
                        if k < p {
                            assert(rv[k] == e);
                        } else if k > p {
                            assert(rv[k - 1] == e);
                        }
                    }
                    if rv.to_set().contains(e) {
                        let k = choose|k: int| 0 <= k < rv.len() && rv[k] == e;
                        if k < p {
                            assert(nv[k] == e);
                        } else {
                            assert(nv[k + 1] == e);
                        }
                    }
                    if e == x@ {
                        assert(nv[p as int] == e);
                    }
                }
            }
        }
        proof {
            string_views(v@.subrange(0, i as int)).lemma_push_to_set_commute(x@);
        }
        i = i + 1;
    }
    assert(v@.subrange(0, i as int) =~= v@);
    r
}

fn matches_any_exec(set: &Vec<String>, t: &str) -> (r: bool)
    ensures
        r == matches_any(t@, string_views(set@)),
{
    let mut i: usize = 0;
    while i < set.len()
        invariant
            i <= set@.len(),
            forall|j: int| 0 <= j < i ==> !same_ignoring_ascii_case(#[trigger] string_views(set@)[j], t@),
        decreases set.len() - i,
    {
        if eq_ignore_case(set[i].as_str(), t) {
            assert(same_ignoring_ascii_case(string_views(set@)[i as int], t@));
            return true;
        }
        i = i + 1;
    }
    false
}

impl Database {
    /// Adds the folder `name`, trimmed, unless it is blank or a folder of that name exists
    /// (ASCII case ignored); the folders are then kept sorted and unique. Returns whether
    /// it was added.
    pub fn add_folder(&mut self, name: &str) -> (added: bool)
        ensures
            final(self).hosts == old(self).hosts,
            added == (trimmed(name@).len() > 0 && !matches_any(trimmed(name@), string_views(old(self).folders@))),
            added ==> strictly_sorted(string_views(final(self).folders@)) && string_views(final(self).folders@).to_set()
                == string_views(old(self).folders@).to_set().insert(trimmed(name@)),
            !added ==> final(self).folders == old(self).folders,
    {
        let t = trim_str(name);
        if t.as_str().unicode_len() == 0 || matches_any_exec(&self.folders, t.as_str()) {
            return false;
        }
        let ghost before = string_views(self.folders@);
        let mut all = self.folders.clone();
        assert(all@ == self.folders@);
        all.push(t);
        assert(string_views(all@) =~= before.push(trimmed(name@)));
        proof {
            before.lemma_push_to_set_commute(trimmed(name@));
        }
        self.folders = sort_unique(&all);
        true
    }
}

pub open spec fn folder_view(o: Option<String>) -> Option<Seq<char>> {
    match o {
        Some(s) => Some(s@),
        None => None,
    }
}

/// `h` refiled under `to` when it is filed under `from`.
pub open spec fn refiled(h: Host, from: Seq<char>, to: Option<String>) -> Host {
    if folder_view(h.folder) == Some(from) {
        Host { folder: to, ..h }
    } else {
        h
    }
}

/// How many of `hosts` are filed under `from`.
pub open spec fn count_in_folder(hosts: Seq<Host>, from: Seq<char>) -> nat
    decreases hosts.len(),
{
    if hosts.len() == 0 {
        0
    } else {
        count_in_folder(hosts.drop_last(), from) + if folder_view(hosts.last().folder) == Some(from) {
            1nat
        } else {
            0nat
        }
    }
}

/// The names of `s` other than `name`, in their order.
pub open spec fn without_text(s: Seq<Seq<char>>, name: Seq<char>) -> Seq<Seq<char>>
    decreases s.len(),
{
    if s.len() == 0 {
        s
    } else if s.last() == name {
        without_text(s.drop_last(), name)
    } else {
        without_text(s.drop_last(), name).push(s.last())
    }
}

/// The names of `s`, each `from` replaced by `to`.
pub open spec fn renamed(s: Seq<Seq<char>>, from: Seq<char>, to: Seq<char>) -> Seq<Seq<char>> {
    s.map_values(|f: Seq<char>| if f == from {
        to
    } else {
        f
    })
}

fn copy_folder(o: &Option<String>) -> (r: Option<String>)
    ensures
        r == *o,
{
    match o {
        Some(s) => Some(s.clone()),
        None => None,
    }
}

/// Files under `to` every host filed under `from`; returns how many there were.
fn refile_hosts(hosts: &mut Vec<Host>, from: &String, to: &Option<String>) -> (moved: usize)
    ensures
        final(hosts)@ == old(hosts)@.map_values(|h: Host| refiled(h, from@, *to)),
        moved == count_in_folder(old(hosts)@, from@),
{
    let ghost orig = hosts@;
    let total = hosts.len();
    let mut rest: Vec<Host> = Vec::new();
    while hosts.len() > 0
        invariant
            orig == old(hosts)@,
            total == orig.len(),
            hosts@ + rest@.reverse() == orig,
        decreases hosts.len(),
    {
        let ghost h0 = hosts@;
        let ghost r0 = rest@;
        let h = hosts.pop().unwrap();
        rest.push(h);
        assert(h0 == hosts@.push(h));
        assert(rest@.reverse() =~= seq![h] + r0.reverse());
        assert(hosts@ + rest@.reverse() =~= h0 + r0.reverse());
    }
    assert(rest@.reverse() =~= orig);
    let mut out: Vec<Host> = Vec::new();
    let mut moved: usize = 0;
    while rest.len() > 0
        invariant
            orig == old(hosts)@,
            total == orig.len(),
            rest@.len() <= orig.len(),
            out@ == orig.subrange(0, (orig.len() - rest@.len()) as int).map_values(|h: Host| refiled(h, from@, *to)),
            moved == count_in_folder(orig.subrange(0, (orig.len() - rest@.len()) as int), from@),
            moved <= orig.len() - rest@.len(),
            rest@.reverse() == orig.subrange((orig.len() - rest@.len()) as int, orig.len() as int),
        decreases rest.len(),
    {
        let ghost r0 = rest@;
        let ghost k = orig.len() - r0.len();
        let h = rest.pop().unwrap();
        assert(r0 == rest@.push(h));
        assert(r0.reverse() =~= seq![h] + rest@.reverse());
        assert(orig[k] == h) by {
            assert(r0.reverse()[0] == orig.subrange(k, orig.len() as int)[0]);
        }
        assert(rest@.reverse() =~= r0.reverse().drop_first());
        assert(orig.subrange(k, orig.len() as int).drop_first() =~= orig.subrange(k + 1, orig.len() as int));
        let ghost pre = orig.subrange(0, k);
        assert(orig.subrange(0, k + 1) =~= pre.push(h));
        assert(pre.push(h).drop_last() =~= pre);
        let hit = match &h.folder {
            Some(f) => *f == *from,
            None => false,
        };
        let ghost o0 = out@;
        if hit {
            out.push(Host { folder: copy_folder(to), ..h });
            moved = moved + 1;
        } else {
            out.push(h);
        }
        assert(out@ =~= pre.push(h).map_values(|h: Host| refiled(h, from@, *to)));
    }
    assert(orig.subrange(0, orig.len() as int) =~= orig);
    *hosts = out;
    moved
}

fn without_folder(folders: &Vec<String>, name: &String) -> (r: Vec<String>)
    ensures
        string_views(r@) == without_text(string_views(folders@), name@),
{
    let mut r: Vec<String> = Vec::new();
    let mut i: usize = 0;
    while i < folders.len()
        invariant
            i <= folders@.len(),
            string_views(r@) == without_text(string_views(folders@).subrange(0, i as int), name@),
        decreases folders.len() - i,
    {
        let ghost prev = string_views(folders@).subrange(0, i as int);
        assert(string_views(folders@).subrange(0, i + 1) =~= prev.push(folders@[i as int]@));
        assert(prev.push(folders@[i as int]@).drop_last() =~= prev);
        if folders[i] != *name {
            let ghost r0 = string_views(r@);
            r.push(folders[i].clone());
            assert(string_views(r@) =~= r0.push(folders@[i as int]@));
        }
        i = i + 1;
    }
    assert(string_views(folders@).subrange(0, i as int) =~= string_views(folders@));
    r
}

impl Database {
    /// Deletes the folder `name`: its hosts move to the root. Returns how many moved.
    pub fn delete_folder(&mut self, name: &String) -> (moved: usize)
        ensures
            string_views(final(self).folders@) == without_text(string_views(old(self).folders@), name@),
            final(self).hosts@ == old(self).hosts@.map_values(|h: Host| refiled(h, name@, None)),
            moved == count_in_folder(old(self).hosts@, name@),
    {
        let moved = refile_hosts(&mut self.hosts, name, &None);
        self.folders = without_folder(&self.folders, name);
        moved
    }

    /// Renames the folder `current` to `new`, trimmed, and refiles its hosts. Nothing
    /// changes when the new name is blank or the same (`Ok(false)`); a new name that
    /// matches an existing folder, ASCII case ignored, is refused.
    pub fn rename_folder(&mut self, current: &String, new: &str) -> (r: Result<bool, String>)
        ensures
            ({
                let n = trimmed(new@);
                if n.len() == 0 || n == current@ {
                    r == Ok::<bool, String>(false) && final(self).hosts == old(self).hosts
                        && final(self).folders == old(self).folders
                } else if matches_any(n, string_views(old(self).folders@)) {
                    r matches Err(m) && m@ == "Folder '"@ + n + "' already exists."@
                        && final(self).hosts == old(self).hosts && final(self).folders == old(self).folders
                } else {
                    &&& r == Ok::<bool, String>(true)
                    &&& strictly_sorted(string_views(final(self).folders@))
                    &&& string_views(final(self).folders@).to_set() == renamed(
                        string_views(old(self).folders@),
                        current@,
                        n,
                    ).to_set()
                    &&& final(self).hosts@.len() == old(self).hosts@.len()
                    &&& forall|i: int| 0 <= i < final(self).hosts@.len() ==> {
                        let h = #[trigger] old(self).hosts@[i];
                        let g = final(self).hosts@[i];
                        &&& g.name == h.name
                        &&& g.host == h.host
                        &&& g.tags == h.tags
                        &&& folder_view(g.folder) == if folder_view(h.folder) == Some(current@) {
                            Some(n)
                        } else {
                            folder_view(h.folder)
                        }
                    }
                }
            }),
    {
        let n = trim_str(new);
        if n.as_str().unicode_len() == 0 || n == *current {
            return Ok(false);
        }
        if matches_any_exec(&self.folders, n.as_str()) {
            let mut m = String::from_str("Folder '");
            m.append(n.as_str());
            m.append("' already exists.");
            return Err(m);
        }
        let mut replaced: Vec<String> = Vec::new();
        let mut i: usize = 0;
        while i < self.folders.len()
            invariant
                i <= self.folders@.len(),
                n@ == trimmed(new@),
                string_views(replaced@) == renamed(string_views(self.folders@).subrange(0, i as int), current@, n@),
            decreases self.folders.len() - i,
        {
            let ghost r0 = string_views(replaced@);
            let ghost f = self.folders@[i as int]@;
            if self.folders[i] == *current {
                replaced.push(n.clone());
                assert(string_views(replaced@) =~= r0.push(n@));
            } else {
                replaced.push(self.folders[i].clone());
                assert(string_views(replaced@) =~= r0.push(f));
            }
            assert(string_views(self.folders@).subrange(0, i + 1) =~= string_views(self.folders@).subrange(
                0,
                i as int,
            ).push(self.folders@[i as int]@));
            assert(string_views(replaced@) =~= renamed(string_views(self.folders@).subrange(0, i + 1), current@, n@));
            i = i + 1;
        }
        assert(string_views(self.folders@).subrange(0, i as int) =~= string_views(self.folders@));
        self.folders = sort_unique(&replaced);
        let to = Some(n.clone());
        let ghost h0 = self.hosts@;
        let _ = refile_hosts(&mut self.hosts, current, &to);
        assert(forall|i: int| 0 <= i < self.hosts@.len() ==> #[trigger] self.hosts@[i] == refiled(h0[i], current@, to));
        Ok(true)
    }
}

/// One line of the host list: a folder or a host.
pub enum Row<'a> {
    Folder(String),
    Host(&'a Host),
}

/// A line of the host list as a value.
pub enum RowView {
    Folder(Seq<char>),
    Host(Host),
}

pub open spec fn row_view(r: Row) -> RowView {
    match r {
        Row::Folder(f) => RowView::Folder(f@),
        Row::Host(h) => RowView::Host(*h),
    }
}

pub open spec fn row_views(rs: Seq<Row>) -> Seq<RowView> {
    rs.map_values(|r: Row| row_view(r))
}

/// The folders that the hosts are filed under.
pub open spec fn host_folders(hosts: Seq<Host>) -> Seq<Seq<char>>
    decreases hosts.len(),
{
    if hosts.len() == 0 {
        Seq::empty()
    } else {
        match hosts.last().folder {
            Some(f) => host_folders(hosts.drop_last()).push(f@),
            None => host_folders(hosts.drop_last()),
        }
    }
}

/// Host lines for those of `items` filed as `folder` says, in their order.
pub open spec fn host_rows_in(items: Seq<&Host>, folder: Option<Seq<char>>) -> Seq<RowView>
    decreases items.len(),
{
    if items.len() == 0 {
        Seq::empty()
    } else if folder_view(items.last().folder) == folder {
        host_rows_in(items.drop_last(), folder).push(RowView::Host(*items.last()))
    } else {
        host_rows_in(items.drop_last(), folder)
    }
}

pub open spec fn host_rows(items: Seq<&Host>) -> Seq<RowView> {
    items.map_values(|h: &Host| RowView::Host(*h))
}

pub open spec fn folder_rows(fs: Seq<Seq<char>>) -> Seq<RowView> {
    fs.map_values(|f: Seq<char>| RowView::Folder(f))
}

fn host_rows_exec<'a>(items: &Vec<&'a Host>, folder: &Option<String>, out: &mut Vec<Row<'a>>)
    ensures
        row_views(final(out)@) == row_views(old(out)@) + host_rows_in(items@, folder_view(*folder)),
{
    let mut i: usize = 0;
    while i < items.len()
        invariant
            i <= items@.len(),
            row_views(out@) == row_views(old(out)@) + host_rows_in(items@.subrange(0, i as int), folder_view(*folder)),
        decreases items.len() - i,
    {
        let h: &'a Host = items[i];
        let ghost prev = items@.subrange(0, i as int);
        assert(items@.subrange(0, i + 1) =~= prev.push(h));
        assert(prev.push(h).drop_last() =~= prev);
        let same = match (&h.folder, folder) {
            (Some(a), Some(b)) => *a == *b,
            (None, None) => true,
            _ => false,
        };
        let ghost o0 = row_views(out@);
        if same {
            out.push(Row::Host(h));
            assert(row_views(out@) =~= o0.push(RowView::Host(*h)));
        }
        assert(row_views(out@) =~= row_views(old(out)@) + host_rows_in(items@.subrange(0, i + 1), folder_view(*folder)));
        i = i + 1;
    }
    assert(items@.subrange(0, i as int) =~= items@);
}

/// The lines of the host list. With a filter, the hosts that it kept. Without one, at
/// the root: every folder, declared or used by a host, sorted and once each, then the
/// hosts filed under none; inside a folder: a `..` line, then the hosts of that folder.
pub fn build_rows<'a>(
    db: &'a Database,
    items: &Vec<&'a Host>,
    filtered: &Vec<&'a Host>,
    filter: &str,
    current_folder: &Option<String>,
) -> (rows: Vec<Row<'a>>)
    ensures
        filter@.len() > 0 ==> row_views(rows@) == host_rows(filtered@),
        filter@.len() == 0 && current_folder is None ==> ({
            let n = rows@.len() - host_rows_in(items@, None).len();
            let fs = row_views(rows@).subrange(0, n);
            &&& n >= 0
            &&& exists|names: Seq<Seq<char>>|
                #[trigger] folder_rows(names) == fs && strictly_sorted(names) && names.to_set()
                    == (string_views(db.folders@) + host_folders(db.hosts@)).to_set()
            &&& row_views(rows@).subrange(n, rows@.len() as int) == host_rows_in(items@, None)
        }),
        filter@.len() == 0 && current_folder is Some ==> row_views(rows@) == seq![
            RowView::Folder(seq!['.', '.']),
        ] + host_rows_in(items@, folder_view(*current_folder)),
{
    let mut rows: Vec<Row<'a>> = Vec::new();
    if filter.unicode_len() > 0 {
        let mut i: usize = 0;
        while i < filtered.len()
            invariant
                i <= filtered@.len(),
                row_views(rows@) == host_rows(filtered@.subrange(0, i as int)),
            decreases filtered.len() - i,
        {
            let ghost r0 = row_views(rows@);
            let h: &'a Host = filtered[i];
            rows.push(Row::Host(h));
            assert(row_views(rows@) =~= r0.push(RowView::Host(*h)));
            assert(filtered@.subrange(0, i + 1) =~= filtered@.subrange(0, i as int).push(h));
            assert(host_rows(filtered@.subrange(0, i + 1)) =~= host_rows(filtered@.subrange(0, i as int)).push(
                RowView::Host(*h),
            ));
            i = i + 1;
        }
        assert(filtered@.subrange(0, i as int) =~= filtered@);
        return rows;
    }
    match current_folder {
        None => {
            let mut all = db.folders.clone();
            assert(all@ == db.folders@);
            let mut i: usize = 0;
            while i < db.hosts.len()
                invariant
                    i <= db.hosts@.len(),
                    string_views(all@) == string_views(db.folders@) + host_folders(db.hosts@.subrange(0, i as int)),
                decreases db.hosts.len() - i,
            {
                let ghost prev = db.hosts@.subrange(0, i as int);
                assert(db.hosts@.subrange(0, i + 1) =~= prev.push(db.hosts@[i as int]));
                assert(prev.push(db.hosts@[i as int]).drop_last() =~= prev);
                let ghost a0 = string_views(all@);
                match &db.hosts[i].folder {
                    Some(f) => {
                        all.push(f.clone());
                        assert(string_views(all@) =~= a0.push(f@));
                    },
                    None => {},
                }
                i = i + 1;
            }
            assert(db.hosts@.subrange(0, i as int) =~= db.hosts@);
            let folders = sort_unique(&all);
            let mut k: usize = 0;
            while k < folders.len()
                invariant
                    k <= folders@.len(),
                    row_views(rows@) == folder_rows(string_views(folders@).subrange(0, k as int)),
                decreases folders.len() - k,
            {
                let ghost r0 = row_views(rows@);
                let f = folders[k].clone();
                let ghost fv = f@;
                rows.push(Row::Folder(f));
                assert(row_views(rows@) =~= r0.push(RowView::Folder(fv)));
                assert(string_views(folders@).subrange(0, k + 1) =~= string_views(folders@).subrange(
                    0,
                    k as int,
                ).push(fv));
                assert(row_views(rows@) =~= folder_rows(string_views(folders@).subrange(0, k + 1)));
                k = k + 1;
            }
            assert(string_views(folders@).subrange(0, k as int) =~= string_views(folders@));
            let ghost fr = row_views(rows@);
            let ghost hr = host_rows_in(items@, None);
            let none: Option<String> = None;
            host_rows_exec(items, &none, &mut rows);
            assert(row_views(rows@) == fr + hr);
            assert(row_views(rows@).subrange(0, fr.len() as int) =~= fr);
            assert(row_views(rows@).subrange(fr.len() as int, rows@.len() as int) =~= hr);
            assert(folder_rows(string_views(folders@)) == fr);
            assert(rows@.len() - hr.len() == fr.len());
        },
        Some(_) => {
            proof {
                reveal_strlit("..");
            }
            let dots = String::from_str("..");
            assert(dots@ =~= seq!['.', '.']);
            rows.push(Row::Folder(dots));
            assert(row_views(rows@) =~= seq![RowView::Folder(seq!['.', '.'])]);
            host_rows_exec(items, current_folder, &mut rows);
        },
    }
    rows
}

/// The fields of one entry of an older database file, as far as they were present with
/// the expected kind of value.
pub struct LegacyEntry {
    pub alias: String,
    pub name: Option<String>,
    pub host: Option<String>,
    pub ip: Option<String>,
    pub port: Option<u64>,
    pub username: Option<String>,
    pub identity_file: Option<String>,
    pub proxy_jump: Option<String>,
    pub folder: Option<String>,
    pub tags: Option<Vec<String>>,
}

/// The address of a legacy entry: `host`, else `ip`, else empty.
pub open spec fn legacy_address(e: LegacyEntry) -> Seq<char> {
    match e.host {
        Some(h) => h@,
        None => match e.ip {
            Some(i) => i@,
            None => Seq::empty(),
        },
    }
}

fn copy_text(o: &Option<String>) -> (r: Option<String>)
    ensures
        r == *o,
{
    match o {
        Some(s) => Some(s.clone()),
        None => None,
    }
}

/// The host that a legacy entry describes: the name defaults to the alias, the
/// address to `ip`, the port to 22 (a larger number keeps its low 16 bits) and the
/// user to `root`. An entry without an address is dropped.
pub fn migrate_entry(e: &LegacyEntry) -> (r: Option<Host>)
    ensures
        legacy_address(*e).len() == 0 <==> r is None,
        r matches Some(h) ==> {
            &&& h.name@ == match e.name {
                Some(n) => n@,
                None => e.alias@,
            }
            &&& h.host@ == legacy_address(*e)
            &&& h.port as int == match e.port {
                Some(p) => p % 65536,
                None => 22,
            }
            &&& h.username@ == match e.username {
                Some(u) => u@,
                None => "root"@,
            }
            &&& h.identity_file == e.identity_file
            &&& h.proxy_jump == e.proxy_jump
            &&& h.folder == e.folder
            &&& string_views_opt(h.tags) == string_views_opt(e.tags)
        },
{
    let host = match &e.host {
        Some(h) => h.clone(),
        None => match &e.ip {
            Some(i) => i.clone(),
            None => String::new(),
        },
    };
    if host.as_str().unicode_len() == 0 {
        return None;
    }
    let tags = match &e.tags {
        Some(v) => {
            let mut out: Vec<String> = Vec::new();
            let mut i: usize = 0;
            while i < v.len()
                invariant
                    i <= v@.len(),
                    string_views(out@) == string_views(v@).subrange(0, i as int),
                decreases v.len() - i,
            {
                let ghost o0 = string_views(out@);
                out.push(v[i].clone());
                assert(string_views(out@) =~= o0.push(v@[i as int]@));
                assert(string_views(out@) =~= string_views(v@).subrange(0, i + 1));
                i = i + 1;
            }
            assert(string_views(v@).subrange(0, i as int) =~= string_views(v@));
            Some(out)
        },
        None => None,
    };
    Some(
        Host {
            name: match &e.name {
                Some(n) => n.clone(),
                None => e.alias.clone(),
            },
            host,
            port: match e.port {
                Some(p) => (p % 65536) as u16,
                None => 22,
            },
            username: match &e.username {
                Some(u) => u.clone(),
                None => String::from_str("root"),
            },
            identity_file: copy_text(&e.identity_file),
            proxy_jump: copy_text(&e.proxy_jump),
            folder: copy_text(&e.folder),
            tags,
        },
    )
}

pub open spec fn string_views_opt(o: Option<Vec<String>>) -> Option<Seq<Seq<char>>> {
    match o {
        Some(v) => Some(string_views(v@)),
        None => None,
    }
}

/// The folders that the hosts are filed under, sorted and each once.
pub fn folders_of_hosts(hosts: &Vec<Host>) -> (r: Vec<String>)
    ensures
        strictly_sorted(string_views(r@)),
        string_views(r@).to_set() == host_folders(hosts@).to_set(),
{
    let mut all: Vec<String> = Vec::new();
    let mut i: usize = 0;
    while i < hosts.len()
        invariant
            i <= hosts@.len(),
            string_views(all@) == host_folders(hosts@.subrange(0, i as int)),
        decreases hosts.len() - i,
    {
        let ghost prev = hosts@.subrange(0, i as int);
        assert(hosts@.subrange(0, i + 1) =~= prev.push(hosts@[i as int]));
        assert(prev.push(hosts@[i as int]).drop_last() =~= prev);
        let ghost a0 = string_views(all@);
        match &hosts[i].folder {
            Some(f) => {
                all.push(f.clone());
                assert(string_views(all@) =~= a0.push(f@));
            },
            None => {},
        }
        i = i + 1;
    }
    assert(hosts@.subrange(0, i as int) =~= hosts@);
    sort_unique(&all)
}

impl Database {
    /// Gives the host named `from` the alias `to`. Nothing changes when there is no such
    /// host, or `to` is blank or the same (`Ok(false)`); an alias in use is refused.
    pub fn rename_host(&mut self, from: &str, to: &str) -> (r: Result<bool, String>)
        ensures
            final(self).folders == old(self).folders,
            match old(self).find_spec(from@) {
                None => r == Ok::<bool, String>(false) && final(self).hosts == old(self).hosts,
                Some(i) => if trimmed(to@).len() == 0 || to@ == from@ {
                    r == Ok::<bool, String>(false) && final(self).hosts == old(self).hosts
                } else if old(self).find_spec(to@) is Some {
                    r matches Err(m) && m@ == "Alias '"@ + to@ + "' already exists."@
                        && final(self).hosts == old(self).hosts
                } else {
                    &&& r == Ok::<bool, String>(true)
                    &&& final(self).hosts@.len() == old(self).hosts@.len()
                    &&& final(self).hosts@[i].name@ == to@
                    &&& final(self).hosts@[i].host == old(self).hosts@[i].host
                    &&& final(self).hosts@[i].port == old(self).hosts@[i].port
                    &&& final(self).hosts@[i].username == old(self).hosts@[i].username
                    &&& final(self).hosts@[i].identity_file == old(self).hosts@[i].identity_file
                    &&& final(self).hosts@[i].proxy_jump == old(self).hosts@[i].proxy_jump
                    &&& final(self).hosts@[i].tags == old(self).hosts@[i].tags
                    &&& final(self).hosts@[i].folder == old(self).hosts@[i].folder
                    &&& forall|j: int|
                        0 <= j < final(self).hosts@.len() && j != i ==> #[trigger] final(self).hosts@[j]
                            == old(self).hosts@[j]
                },
            },
    {
        let i = match self.find(from) {
            Some(i) => i,
            None => {
                return Ok(false);
            },
        };
        let blank = trim_str(to).as_str().unicode_len() == 0;
        let same = String::from_str(to) == String::from_str(from);
        if blank || same {
            return Ok(false);
        }
        if self.find(to).is_some() {
            let mut m = String::from_str("Alias '");
            m.append(to);
            m.append("' already exists.");
            return Err(m);
        }
        let ghost before = self.hosts@;
        let h = self.hosts.remove(i);
        self.hosts.insert(i, Host { name: String::from_str(to), ..h });
        assert forall|j: int| 0 <= j < self.hosts@.len() && j != i implies #[trigger] self.hosts@[j]
            == before[j] by {
            if j < i {
            } else {
            }
        }
        Ok(true)
    }
}

} // verus!
