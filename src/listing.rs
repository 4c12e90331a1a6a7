use vstd::prelude::*;
use vstd::seq_lib::*;
use crate::paths::{trimmed_len, trim_trailing_slashes};
use crate::text::{
    contains_seq, contains_str, lemma_lex_total, lemma_lex_trans, lex_le, lex_le_str, lower_of,
    lowercase, trim_bounds, trimmed,
};

verus! {

broadcast use group_to_multiset_ensures;

/// One entry of a directory listing.
pub struct FileEntry {
    pub name: String,
    pub is_dir: bool,
}

/// A listing entry as a value: its name and whether it is a directory.
pub type EntryView = (Seq<char>, bool);

impl View for FileEntry {
    type V = EntryView;

    open spec fn view(&self) -> EntryView {
        (self.name@, self.is_dir)
    }
}

impl FileEntry {
    pub fn new(name: &str, is_dir: bool) -> (r: FileEntry)
        ensures
            r@ == (name@, is_dir),
    {
        FileEntry { name: String::from_str(name), is_dir }
    }

    pub fn duplicate(&self) -> (r: FileEntry)
        ensures
            r@ == self@,
    {
        FileEntry { name: self.name.clone(), is_dir: self.is_dir }
    }
}

pub open spec fn views(s: Seq<FileEntry>) -> Seq<EntryView> {
    s.map_values(|e: FileEntry| e@)
}

/// `a` may stand before `b` in a listing: directories come first, then the names
/// compare case-insensitively.
pub open spec fn entry_le(a: EntryView, b: EntryView) -> bool {
    (a.1 && !b.1) || (a.1 == b.1 && lex_le(lower_of(a.0), lower_of(b.0)))
}

pub open spec fn is_sorted_listing(s: Seq<EntryView>) -> bool {
    forall|i: int, j: int| 0 <= i < j < s.len() ==> entry_le(#[trigger] s[i], #[trigger] s[j])
}

proof fn lemma_entry_total(a: EntryView, b: EntryView)
    ensures
        entry_le(a, b) || entry_le(b, a),
{
    lemma_lex_total(lower_of(a.0), lower_of(b.0));
}

proof fn lemma_entry_trans(a: EntryView, b: EntryView, c: EntryView)
    requires
        entry_le(a, b),
        entry_le(b, c),
    ensures
        entry_le(a, c),
{
    if a.1 == b.1 && b.1 == c.1 {
        lemma_lex_trans(lower_of(a.0), lower_of(b.0), lower_of(c.0));
    }
}

fn entry_le_exec(a: &FileEntry, b: &FileEntry) -> (r: bool)
    ensures
        r == entry_le(a@, b@),
{
    if a.is_dir != b.is_dir {
        a.is_dir
    } else {
        let la = lowercase(a.name.as_str());
        let lb = lowercase(b.name.as_str());
        lex_le_str(la.as_str(), lb.as_str())
    }
}

/// Orders a listing: directories before files, each group by case-insensitive name.
/// Entries that compare equal keep their order.
pub fn sort_entries(entries: Vec<FileEntry>) -> (r: Vec<FileEntry>)
    ensures
        is_sorted_listing(views(r@)),
        views(r@).to_multiset() == views(entries@).to_multiset(),
{
    let mut r: Vec<FileEntry> = Vec::new();
    let mut i: usize = 0;
    while i < entries.len()
        invariant
            i <= entries@.len(),
            is_sorted_listing(views(r@)),
            views(r@).to_multiset() == views(entries@.subrange(0, i as int)).to_multiset(),
        decreases entries.len() - i,
    {
        let x = entries[i].duplicate();
        let mut p: usize = 0;
        while p < r.len() && entry_le_exec(&r[p], &x)
            invariant
                p <= r@.len(),
                forall|k: int| 0 <= k < p ==> entry_le(#[trigger] r@[k]@, x@),
            decreases r.len() - p,
        {
            p = p + 1;
        }
        let ghost old_r = r@;
        proof {
            if p < r@.len() {
                lemma_entry_total(r@[p as int]@, x@);
            }
        }
        r.insert(p, x);
        proof {
            assert(views(r@) =~= views(old_r).insert(p as int, x@));
            assert forall|a: int, b: int| 0 <= a < b < r@.len() implies entry_le(
                #[trigger] views(r@)[a],
                #[trigger] views(r@)[b],
            ) by {
                if a < p && b == p {
                } else if a < p && b > p {
                } else if a == p {
                    if b - 1 > p {
                        assert(entry_le(views(old_r)[p as int], views(old_r)[b - 1]));
                        lemma_entry_trans(x@, old_r[p as int]@, old_r[b - 1]@);
                    }
                } else {
                }
            }
            assert(entries@.subrange(0, i + 1) =~= entries@.subrange(0, i as int).push(
                entries@[i as int],
            ));
            assert(views(entries@.subrange(0, i + 1)) =~= views(
                entries@.subrange(0, i as int),
            ).push(x@));
        }
        i = i + 1;
    }
    assert(entries@.subrange(0, i as int) =~= entries@);
    r
}

/// Index of the first line break of `s`, or its length when it holds none.
pub open spec fn newline_at(s: Seq<char>) -> nat
    decreases s.len(),
{
    if s.len() == 0 {
        0
    } else if s[0] == '\n' {
        0
    } else {
        1 + newline_at(s.drop_first())
    }
}

proof fn lemma_newline_at_bound(s: Seq<char>)
    ensures
        newline_at(s) <= s.len(),
    decreases s.len(),
{
    if s.len() > 0 && s[0] != '\n' {
        lemma_newline_at_bound(s.drop_first());
    }
}

/// The entry that one output line of `ls -p -1` stands for: white space trimmed, a
/// trailing `/` marking a directory and dropped from the name.
pub open spec fn entry_of_line(line: Seq<char>) -> EntryView {
    let t = trimmed(line);
    if t.len() > 0 && t.last() == '/' {
        (trim_trailing_slashes(t), true)
    } else {
        (t, false)
    }
}

/// The entries of one output line: none for a blank line.
pub open spec fn line_entries(line: Seq<char>) -> Seq<EntryView> {
    if trimmed(line).len() == 0 {
        Seq::empty()
    } else {
        seq![entry_of_line(line)]
    }
}

/// The entries that the output of `ls -p -1` names, line by line.
pub open spec fn listing_entries(out: Seq<char>) -> Seq<EntryView>
    decreases out.len(),
{
    let k = newline_at(out);
    if k >= out.len() {
        line_entries(out)
    } else {
        line_entries(out.subrange(0, k as int)) + listing_entries(
            out.subrange((k + 1) as int, out.len() as int),
        )
    }
}

fn next_newline(s: &str, from: usize) -> (k: usize)
    requires
        from <= s@.len(),
    ensures
        k == from + newline_at(s@.subrange(from as int, s@.len() as int)),
        k <= s@.len(),
{
    let n = s.unicode_len();
    let mut k = from;
    while k < n && s.get_char(k) != '\n'
        invariant
            n == s@.len(),
            from <= k <= n,
            newline_at(s@.subrange(from as int, n as int)) == (k - from) + newline_at(
                s@.subrange(k as int, n as int),
            ),
        decreases n - k,
    {
        assert(s@.subrange(k as int, n as int).drop_first() =~= s@.subrange(k + 1, n as int));
        k = k + 1;
    }
    k
}

/// Appends to `out` the entries of the line `s[lo..hi]`.
fn push_line_entry(s: &str, lo: usize, hi: usize, out: &mut Vec<FileEntry>)
    requires
        lo <= hi <= s@.len(),
    ensures
        views(final(out)@) == views(old(out)@) + line_entries(s@.subrange(lo as int, hi as int)),
{
    let (a, b) = trim_bounds(s, lo, hi);
    if a == b {
        assert(views(out@) =~= views(out@) + Seq::<EntryView>::empty());
        return;
    }
    let line = s.substring_char(a, b);
    let m = b - a;
    let is_dir = line.get_char(m - 1) == '/';
    assert(line@.subrange(0, m as int) =~= line@);
    let entry = if is_dir {
        let k = trimmed_len(line, m);
        FileEntry::new(line.substring_char(0, k), true)
    } else {
        FileEntry::new(line, false)
    };
    assert(entry@ == entry_of_line(s@.subrange(lo as int, hi as int)));
    let ghost before = out@;
    out.push(entry);
    assert(views(out@) =~= views(before).push(entry@));
    assert(views(out@) =~= views(before) + line_entries(s@.subrange(lo as int, hi as int)));
}

/// The entries named by the output of a remote listing, sorted as a listing is.
/// Output of a listing that failed stands for an empty directory.
pub fn parse_remote_listing(succeeded: bool, out: &str) -> (r: Vec<FileEntry>)
    ensures
        !succeeded ==> r@.len() == 0,
        succeeded ==> is_sorted_listing(views(r@)),
        succeeded ==> views(r@).to_multiset() == listing_entries(out@).to_multiset(),
{
    if !succeeded {
        return Vec::new();
    }
    let n = out.unicode_len();
    let mut entries: Vec<FileEntry> = Vec::new();
    let mut start: usize = 0;
    assert(out@.subrange(0, n as int) =~= out@);
    loop
        invariant_except_break
            n == out@.len(),
            start <= n,
            views(entries@) + listing_entries(out@.subrange(start as int, n as int))
                == listing_entries(out@),
        ensures
            views(entries@) == listing_entries(out@),
        decreases n - start,
    {
        let k = next_newline(out, start);
        let ghost rest = out@.subrange(start as int, n as int);
        assert(out@.subrange(start as int, k as int) =~= rest.subrange(0, (k - start) as int));
        let ghost before = views(entries@);
        push_line_entry(out, start, k, &mut entries);
        proof {
            lemma_newline_at_bound(rest);
        }
        if k == n {
            assert(listing_entries(rest) == line_entries(rest));
            assert(rest =~= out@.subrange(start as int, k as int));
            assert(views(entries@) =~= before + listing_entries(rest));
            break;
        }
        assert(listing_entries(rest) == line_entries(rest.subrange(0, (k - start) as int))
            + listing_entries(rest.subrange((k - start) + 1, rest.len() as int)));
        assert(out@.subrange(k + 1, n as int) =~= rest.subrange((k - start) + 1, rest.len() as int));
        start = k + 1;
    }
    sort_entries(entries)
}

/// A listing with the `..` entry in front when the directory has a parent.
pub open spec fn with_parent_entry(s: Seq<EntryView>, has_parent: bool) -> Seq<EntryView> {
    if has_parent {
        seq![(seq!['.', '.'], true)] + s
    } else {
        s
    }
}

pub fn add_parent_entry(entries: &mut Vec<FileEntry>, has_parent: bool)
    ensures
        views(final(entries)@) == with_parent_entry(views(old(entries)@), has_parent),
{
    if has_parent {
        proof {
            reveal_strlit("..");
        }
        let ghost before = entries@;
        let e = FileEntry::new("..", true);
        assert(e@ == (seq!['.', '.'], true));
        entries.insert(0, e);
        assert(views(entries@) =~= views(before).insert(0, e@));
        assert(views(entries@) =~= seq![(seq!['.', '.'], true)] + views(before));
    }
}

/// `name` passes the panel filter `filter`: the filter is empty, or occurs in the name,
/// case ignored.
pub open spec fn passes_filter(name: Seq<char>, filter: Seq<char>) -> bool {
    filter.len() == 0 || contains_seq(lower_of(name), lower_of(filter))
}

pub open spec fn filtered(s: Seq<EntryView>, filter: Seq<char>) -> Seq<EntryView>
    decreases s.len(),
{
    if s.len() == 0 {
        s
    } else if passes_filter(s.last().0, filter) {
        filtered(s.drop_last(), filter).push(s.last())
    } else {
        filtered(s.drop_last(), filter)
    }
}

/// The entries whose names pass the filter, in their order.
pub fn filter_entries(entries: &Vec<FileEntry>, filter: &str) -> (r: Vec<FileEntry>)
    ensures
        views(r@) == filtered(views(entries@), filter@),
{
    let mut r: Vec<FileEntry> = Vec::new();
    let empty = filter.unicode_len() == 0;
    let lf = lowercase(filter);
    let mut i: usize = 0;
    while i < entries.len()
        invariant
            i <= entries@.len(),
            empty == (filter@.len() == 0),
            lf@ == lower_of(filter@),
            views(r@) == filtered(views(entries@.subrange(0, i as int)), filter@),
        decreases entries.len() - i,
    {
        let e = &entries[i];
        let keep = if empty {
            true
        } else {
            let ln = lowercase(e.name.as_str());
            contains_str(ln.as_str(), lf.as_str())
        };
        let ghost prev = views(entries@.subrange(0, i as int));
        assert(views(entries@.subrange(0, i + 1)) =~= prev.push(e@));
        assert(prev.push(e@).drop_last() =~= prev);
        if keep {
            r.push(e.duplicate());
        }
        assert(views(r@) =~= filtered(views(entries@.subrange(0, i + 1)), filter@));
        i = i + 1;
    }
    assert(entries@.subrange(0, i as int) =~= entries@);
    r
}

/// In a sorted listing every directory comes before every file, and within each group
/// the names come in case-insensitive order.
pub proof fn lemma_listing_order(s: Seq<EntryView>)
    requires
        is_sorted_listing(s),
    ensures
        forall|i: int, j: int| 0 <= i < j < s.len() && #[trigger] s[j].1 ==> #[trigger] s[i].1,
        forall|i: int, j: int|
            0 <= i < j < s.len() && #[trigger] s[i].1 == #[trigger] s[j].1 ==> lex_le(
                lower_of(s[i].0),
                lower_of(s[j].0),
            ),
{
    assert forall|i: int, j: int| 0 <= i < j < s.len() && #[trigger] s[j].1 implies #[trigger] s[i].1 by {
        assert(entry_le(s[i], s[j]));
    }
    assert forall|i: int, j: int|
        0 <= i < j < s.len() && #[trigger] s[i].1 == #[trigger] s[j].1 implies lex_le(
        lower_of(s[i].0),
        lower_of(s[j].0),
    ) by {
        assert(entry_le(s[i], s[j]));
    }
}

pub open spec fn is_digit(c: char) -> bool {
    '0' <= c <= '9'
}

/// The number that the decimal digits `s` write.
pub open spec fn digits_value(s: Seq<char>) -> nat
    decreases s.len(),
{
    if s.len() == 0 {
        0
    } else {
        digits_value(s.drop_last()) * 10 + ((s.last() as u32) - ('0' as u32)) as nat
    }
}

/// `s` without a leading `+`.
pub open spec fn unsigned_part(s: Seq<char>) -> Seq<char> {
    if s.len() > 0 && s[0] == '+' {
        s.drop_first()
    } else {
        s
    }
}

pub open spec fn all_digits(d: Seq<char>) -> bool {
    forall|i: int| 0 <= i < d.len() ==> is_digit(#[trigger] d[i])
}

/// What `u64::from_str` makes of `s`: an optional `+` and at least one decimal digit,
/// whose value fits in a `u64`.
pub open spec fn parsed_u64(s: Seq<char>) -> Option<u64> {
    let d = unsigned_part(s);
    if d.len() > 0 && all_digits(d) && digits_value(d) <= u64::MAX {
        Some(digits_value(d) as u64)
    } else {
        None
    }
}

/// The first line of the output of a size probe that, trimmed, reads as a `u64`.
pub open spec fn first_size(out: Seq<char>) -> Option<u64>
    decreases out.len(),
{
    let k = newline_at(out);
    let line = if k >= out.len() {
        out
    } else {
        out.subrange(0, k as int)
    };
    match parsed_u64(trimmed(line)) {
        Some(v) => Some(v),
        None => if k >= out.len() {
            None
        } else {
            first_size(out.subrange((k + 1) as int, out.len() as int))
        },
    }
}

/// Reads `s[lo..hi]` as `u64::from_str` would.
pub fn parse_u64(s: &str, lo: usize, hi: usize) -> (r: Option<u64>)
    requires
        lo <= hi <= s@.len(),
    ensures
        r == parsed_u64(s@.subrange(lo as int, hi as int)),
{
    let ghost whole = s@.subrange(lo as int, hi as int);
    let mut a = lo;
    if a < hi && s.get_char(a) == '+' {
        a = a + 1;
    }
    let ghost d = s@.subrange(a as int, hi as int);
    assert(d =~= unsigned_part(whole));
    if a == hi {
        return None;
    }
    let mut v: u64 = 0;
    let mut i = a;
    while i < hi
        invariant
            lo <= a <= i <= hi <= s@.len(),
            a < hi,
            whole == s@.subrange(lo as int, hi as int),
            d == unsigned_part(whole),
            d == s@.subrange(a as int, hi as int),
            forall|j: int| a <= j < i ==> is_digit(#[trigger] s@[j]),
            v == digits_value(s@.subrange(a as int, i as int)),
        decreases hi - i,
    {
        let c = s.get_char(i);
        assert(s@.subrange(a as int, i + 1).drop_last() =~= s@.subrange(a as int, i as int));
        if !('0' <= c && c <= '9') {
            assert(d[i - a] == c);
            assert(!is_digit(d[i - a]));
            assert(!all_digits(d));
            assert(parsed_u64(whole) is None);
            return None;
        }
        let digit = (c as u32 - '0' as u32) as u64;
        if v > (u64::MAX - digit) / 10 {
            proof {
                if all_digits(d) {
                    lemma_digits_value_prefix(d, (i + 1 - a) as nat);
                }
                assert(d.subrange(0, (i + 1 - a) as int) =~= s@.subrange(a as int, i + 1));
                assert(digits_value(s@.subrange(a as int, i + 1)) == v * 10 + digit);
                assert(v * 10 + digit > u64::MAX) by (nonlinear_arith)
                    requires
                        v > (u64::MAX - digit) / 10,
                        digit <= 9,
                ;
                if all_digits(d) {
                    assert(digits_value(d) > u64::MAX);
                }
                assert(parsed_u64(whole) is None);
            }
            return None;
        }
        assert(v * 10 + digit <= u64::MAX) by (nonlinear_arith)
            requires
                v <= (u64::MAX - digit) / 10,
                digit <= 9,
        ;
        v = v * 10 + digit;
        i = i + 1;
    }
    Some(v)
}

/// The value of every prefix of a digit string is at most the value of the whole.
proof fn lemma_digits_value_prefix(s: Seq<char>, n: nat)
    requires
        n <= s.len(),
        forall|i: int| 0 <= i < s.len() ==> is_digit(#[trigger] s[i]),
    ensures
        digits_value(s.subrange(0, n as int)) <= digits_value(s),
    decreases s.len(),
{
    if n < s.len() {
        let t = s.drop_last();
        assert(t.subrange(0, n as int) =~= s.subrange(0, n as int));
        assert forall|i: int| 0 <= i < t.len() implies is_digit(#[trigger] t[i]) by {
            assert(t[i] == s[i]);
        }
        lemma_digits_value_prefix(t, n);
    } else {
        assert(s.subrange(0, n as int) =~= s);
    }
}

/// The size that a probe reported: none when the probe failed or no line of its output
/// reads as a number.
pub fn parse_size_output(succeeded: bool, out: &str) -> (r: Option<u64>)
    ensures
        !succeeded ==> r is None,
        succeeded ==> r == first_size(out@),
{
    if !succeeded {
        return None;
    }
    let n = out.unicode_len();
    let mut start: usize = 0;
    assert(out@.subrange(0, n as int) =~= out@);
    loop
        invariant
            succeeded,
            n == out@.len(),
            start <= n,
            first_size(out@) == first_size(out@.subrange(start as int, n as int)),
        decreases n - start,
    {
        let k = next_newline(out, start);
        let ghost rest = out@.subrange(start as int, n as int);
        proof {
            lemma_newline_at_bound(rest);
        }
        let (a, b) = trim_bounds(out, start, k);
        let ghost line = if k - start >= rest.len() {
            rest
        } else {
            rest.subrange(0, (k - start) as int)
        };
        assert(out@.subrange(start as int, k as int) =~= line);
        let v = parse_u64(out, a, b);
        if v.is_some() {
            return v;
        }
        if k == n {
            return None;
        }
        assert(out@.subrange(k + 1, n as int) =~= rest.subrange((k - start) + 1, rest.len() as int));
        start = k + 1;
    }
}

} // verus!
