use vstd::prelude::*;
use crate::listing::{parse_u64, parsed_u64};
use crate::matcher::{split_char, split_on};
use crate::models::{comma_joined, port_string, tags_to_string, Database, Host};
use crate::paths::decimal;
use crate::text::{push_char, string_views, trim_str, trimmed};

verus! {

/// Drops the last character of `s`, if any.
fn pop_last(s: &mut String)
    ensures
        old(s)@.len() == 0 ==> final(s)@.len() == 0,
        old(s)@.len() > 0 ==> final(s)@ == old(s)@.drop_last(),
{
    let n = s.as_str().unicode_len();
    if n > 0 {
        let shorter = String::from_str(s.as_str().substring_char(0, n - 1));
        *s = shorter;
    }
}

/// The form that renames a folder: one text field, then the Save button.
pub struct FolderFormState {
    pub name: String,
    pub original_name: String,
    pub selected_field: usize,
    pub error: Option<String>,
}

impl FolderFormState {
    pub fn new_rename(name: &str) -> (r: FolderFormState)
        ensures
            r.name@ == name@,
            r.original_name@ == name@,
            r.selected_field == 0,
            r.error is None,
    {
        FolderFormState {
            name: String::from_str(name),
            original_name: String::from_str(name),
            selected_field: 0,
            error: None,
        }
    }

    /// Number of text fields; the Save button comes after them.
    pub fn fields_count() -> (r: usize)
        ensures
            r == 1,
    {
        1
    }

    pub fn next_field(&mut self)
        requires
            old(self).selected_field < usize::MAX,
        ensures
            final(self).selected_field == (old(self).selected_field + 1) % 2,
            final(self).name == old(self).name,
            final(self).original_name == old(self).original_name,
            final(self).error == old(self).error,
    {
        self.selected_field = (self.selected_field + 1) % (Self::fields_count() + 1);
    }

    pub fn prev_field(&mut self)
        ensures
            final(self).selected_field == if old(self).selected_field == 0 {
                1
            } else {
                old(self).selected_field - 1
            },
            final(self).name == old(self).name,
            final(self).original_name == old(self).original_name,
            final(self).error == old(self).error,
    {
        if self.selected_field == 0 {
            self.selected_field = Self::fields_count();
        } else {
            self.selected_field = self.selected_field - 1;
        }
    }

    /// The text field under the cursor, if the cursor is not on the Save button.
    pub fn active_value_mut(&mut self) -> (r: Option<&mut String>)
        ensures
            old(self).selected_field == 0 ==> r is Some && *r->0 == old(self).name
                && final(self).name == *final(r->0)
                && final(self).original_name == old(self).original_name
                && final(self).selected_field == old(self).selected_field
                && final(self).error == old(self).error,
            old(self).selected_field != 0 ==> r is None && *final(self) == *old(self),
    {
        match self.selected_field {
            0 => Some(&mut self.name),
            _ => None,
        }
    }

    /// Types `c` into the field under the cursor.
    pub fn push_char(&mut self, c: char)
        ensures
            final(self).selected_field == old(self).selected_field,
            final(self).original_name == old(self).original_name,
            old(self).selected_field == 0 ==> final(self).name@ == old(self).name@.push(c),
            old(self).selected_field != 0 ==> final(self).name == old(self).name,
    {
        if self.selected_field == 0 {
            push_char(&mut self.name, c);
        }
    }

    /// Erases the last character of the field under the cursor.
    pub fn pop_char(&mut self)
        ensures
            final(self).selected_field == old(self).selected_field,
            final(self).original_name == old(self).original_name,
            old(self).selected_field == 0 && old(self).name@.len() > 0
                ==> final(self).name@ == old(self).name@.drop_last(),
            old(self).selected_field == 0 && old(self).name@.len() == 0 ==> final(self).name@.len()
                == 0,
            old(self).selected_field != 0 ==> final(self).name == old(self).name,
    {
        if self.selected_field == 0 {
            pop_last(&mut self.name);
        }
    }
}

/// The form that creates or edits a host: eight text fields, then the Save button.
pub struct HostFormState {
    pub name: String,
    pub host: String,
    pub port: String,
    pub username: String,
    pub identity_file: String,
    pub proxy_jump: String,
    pub tags: String,
    pub folder: String,
    pub selected_field: usize,
    pub is_edit: bool,
    pub original_name: Option<String>,
}

/// The text of field `k` of the form, in the order the form shows them.
pub open spec fn form_field(s: HostFormState, k: int) -> Seq<char> {
    if k == 0 {
        s.name@
    } else if k == 1 {
        s.host@
    } else if k == 2 {
        s.port@
    } else if k == 3 {
        s.username@
    } else if k == 4 {
        s.identity_file@
    } else if k == 5 {
        s.proxy_jump@
    } else if k == 6 {
        s.tags@
    } else {
        s.folder@
    }
}

/// `a` and `b` hold the same texts but maybe in field `k`, and agree on the rest.
pub open spec fn same_but_field(a: HostFormState, b: HostFormState, k: int) -> bool {
    &&& forall|j: int| 0 <= j < 8 && j != k ==> #[trigger] form_field(a, j) == form_field(b, j)
    &&& a.selected_field == b.selected_field
    &&& a.is_edit == b.is_edit
    &&& a.original_name == b.original_name
}

fn opt_text(v: &Option<String>) -> (r: String)
    ensures
        r@ == match v {
            Some(s) => s@,
            None => Seq::empty(),
        },
{
    match v {
        Some(s) => s.clone(),
        None => String::new(),
    }
}

impl HostFormState {
    /// An empty form for a new host in `current_folder`, port 22 and user `root`.
    pub fn new_create(current_folder: Option<String>) -> (r: HostFormState)
        ensures
            r.name@.len() == 0,
            r.host@.len() == 0,
            r.port@ == "22"@,
            r.username@ == "root"@,
            r.identity_file@.len() == 0,
            r.proxy_jump@.len() == 0,
            r.tags@.len() == 0,
            r.folder@ == match current_folder {
                Some(f) => f@,
                None => Seq::empty(),
            },
            r.selected_field == 0,
            !r.is_edit,
            r.original_name is None,
    {
        let folder = opt_text(&current_folder);
        HostFormState {
            name: String::new(),
            host: String::new(),
            port: String::from_str("22"),
            username: String::from_str("root"),
            identity_file: String::new(),
            proxy_jump: String::new(),
            tags: String::new(),
            folder,
            selected_field: 0,
            is_edit: false,
            original_name: None,
        }
    }

    /// A form filled from the host named `name`, or an empty one when there is none.
    pub fn new_edit(db: &Database, name: &str) -> (r: HostFormState)
        ensures
            match db.find_spec(name@) {
                Some(i) => {
                    let h = db.hosts@[i];
                    &&& r.name@ == h.name@
                    &&& r.host@ == h.host@
                    &&& r.port@ == decimal(h.port as nat)
                    &&& r.username@ == h.username@
                    &&& r.tags@ == match h.tags {
                        None => Seq::empty(),
                        Some(v) => comma_joined(string_views(v@)),
                    }
                    &&& r.is_edit
                    &&& r.original_name matches Some(o) && o@ == h.name@
                },
                None => !r.is_edit && r.original_name is None && r.name@.len() == 0,
            },
            r.selected_field == 0,
    {
        match db.find(name) {
            Some(i) => {
                let h = &db.hosts[i];
                HostFormState {
                    name: h.name.clone(),
                    host: h.host.clone(),
                    port: port_string(h.port),
                    username: h.username.clone(),
                    identity_file: opt_text(&h.identity_file),
                    proxy_jump: opt_text(&h.proxy_jump),
                    tags: tags_to_string(&h.tags),
                    folder: opt_text(&h.folder),
                    selected_field: 0,
                    is_edit: true,
                    original_name: Some(h.name.clone()),
                }
            },
            None => HostFormState::new_create(None),
        }
    }

    pub fn fields_count() -> (r: usize)
        ensures
            r == 8,
    {
        8
    }

    pub fn next_field(&mut self)
        requires
            old(self).selected_field < usize::MAX,
        ensures
            final(self).selected_field == (old(self).selected_field + 1) % 9,
            forall|j: int| 0 <= j < 8 ==> #[trigger] form_field(*final(self), j) == form_field(*old(self), j),
    {
        self.selected_field = (self.selected_field + 1) % (Self::fields_count() + 1);
    }

    pub fn prev_field(&mut self)
        ensures
            final(self).selected_field == if old(self).selected_field == 0 {
                8
            } else {
                old(self).selected_field - 1
            },
            forall|j: int| 0 <= j < 8 ==> #[trigger] form_field(*final(self), j) == form_field(*old(self), j),
    {
        if self.selected_field == 0 {
            self.selected_field = Self::fields_count();
        } else {
            self.selected_field = self.selected_field - 1;
        }
    }

    /// The text field under the cursor, if the cursor is not on the Save button.
    pub fn active_value_mut(&mut self) -> (r: Option<&mut String>)
        ensures
            old(self).selected_field < 8 ==> r is Some && (*r->0)@ == form_field(
                *old(self),
                old(self).selected_field as int,
            ) && form_field(*final(self), old(self).selected_field as int) == (*final(r->0))@
                && same_but_field(*final(self), *old(self), old(self).selected_field as int),
            old(self).selected_field >= 8 ==> r is None && *final(self) == *old(self),
    {
        match self.selected_field {
            0 => Some(&mut self.name),
            1 => Some(&mut self.host),
            2 => Some(&mut self.port),
            3 => Some(&mut self.username),
            4 => Some(&mut self.identity_file),
            5 => Some(&mut self.proxy_jump),
            6 => Some(&mut self.tags),
            7 => Some(&mut self.folder),
            _ => None,
        }
    }

    /// Types `c` into the field under the cursor.
    pub fn push_char(&mut self, c: char)
        ensures
            old(self).selected_field < 8 ==> form_field(*final(self), old(self).selected_field as int)
                == form_field(*old(self), old(self).selected_field as int).push(c) && same_but_field(
                *final(self),
                *old(self),
                old(self).selected_field as int,
            ),
            old(self).selected_field >= 8 ==> *final(self) == *old(self),
    {
        if let Some(field) = self.active_value_mut() {
            push_char(field, c);
        }
    }

    /// Erases the last character of the field under the cursor.
    pub fn pop_char(&mut self)
        ensures
            old(self).selected_field < 8 ==> form_field(*final(self), old(self).selected_field as int)
                == if form_field(*old(self), old(self).selected_field as int).len() > 0 {
                form_field(*old(self), old(self).selected_field as int).drop_last()
            } else {
                Seq::empty()
            } && same_but_field(*final(self), *old(self), old(self).selected_field as int),
            old(self).selected_field >= 8 ==> *final(self) == *old(self),
    {
        if let Some(field) = self.active_value_mut() {
            pop_last(field);
        }
    }
}

/// What `u16::from_str` makes of `s`.
pub open spec fn parsed_u16(s: Seq<char>) -> Option<u16> {
    match parsed_u64(s) {
        Some(v) => if v <= 65535 {
            Some(v as u16)
        } else {
            None
        },
        None => None,
    }
}

/// The trimmed text of an optional field, `None` when nothing is left.
pub open spec fn optional_text(s: Seq<char>) -> Option<Seq<char>> {
    if trimmed(s).len() == 0 {
        None
    } else {
        Some(trimmed(s))
    }
}

/// The trimmed pieces of `parts` that are not empty, in their order.
pub open spec fn nonempty_trimmed(parts: Seq<Seq<char>>) -> Seq<Seq<char>>
    decreases parts.len(),
{
    if parts.len() == 0 {
        parts
    } else if trimmed(parts.last()).len() == 0 {
        nonempty_trimmed(parts.drop_last())
    } else {
        nonempty_trimmed(parts.drop_last()).push(trimmed(parts.last()))
    }
}

/// The tags written in the form: comma-separated, each trimmed, empty ones dropped;
/// `None` when none is left.
pub open spec fn form_tags(s: Seq<char>) -> Option<Seq<Seq<char>>> {
    let l = nonempty_trimmed(split_on(trimmed(s), ','));
    if l.len() == 0 {
        None
    } else {
        Some(l)
    }
}

pub open spec fn text_of(o: Option<String>) -> Option<Seq<char>> {
    match o {
        Some(s) => Some(s@),
        None => None,
    }
}

pub open spec fn tags_of(o: Option<Vec<String>>) -> Option<Seq<Seq<char>>> {
    match o {
        Some(v) => Some(string_views(v@)),
        None => None,
    }
}

pub open spec fn has_name(hosts: Seq<Host>, n: Seq<char>) -> bool {
    exists|i: int| 0 <= i < hosts.len() && #[trigger] hosts[i].name@ == n
}

/// Why the form cannot be saved into a database holding `hosts`, if it cannot.
pub open spec fn form_error(hosts: Seq<Host>, st: HostFormState) -> Option<Seq<char>> {
    let n = trimmed(st.name@);
    if n.len() == 0 {
        Some("Name cannot be empty"@)
    } else if trimmed(st.host@).len() == 0 {
        Some("Host cannot be empty"@)
    } else if parsed_u16(trimmed(st.port@)) is None {
        Some("Port must be a number"@)
    } else if match st.original_name {
        Some(o) => n != o@ && has_name(hosts, n),
        None => has_name(hosts, n),
    } {
        Some("Host alias '"@ + n + "' already exists"@)
    } else {
        None
    }
}

/// `h` is the host that the form describes.
pub open spec fn is_form_host(h: Host, st: HostFormState) -> bool {
    let u = trimmed(st.username@);
    &&& h.name@ == trimmed(st.name@)
    &&& h.host@ == trimmed(st.host@)
    &&& Some(h.port) == parsed_u16(trimmed(st.port@))
    &&& h.username@ == if u.len() == 0 {
        "root"@
    } else {
        u
    }
    &&& text_of(h.identity_file) == optional_text(st.identity_file@)
    &&& text_of(h.proxy_jump) == optional_text(st.proxy_jump@)
    &&& text_of(h.folder) == optional_text(st.folder@)
    &&& tags_of(h.tags) == form_tags(st.tags@)
}

/// The hosts not named `n`, in their order.
pub open spec fn without_name(hosts: Seq<Host>, n: Seq<char>) -> Seq<Host>
    decreases hosts.len(),
{
    if hosts.len() == 0 {
        hosts
    } else if hosts.last().name@ == n {
        without_name(hosts.drop_last(), n)
    } else {
        without_name(hosts.drop_last(), n).push(hosts.last())
    }
}

fn optional_field(s: &String) -> (r: Option<String>)
    ensures
        text_of(r) == optional_text(s@),
{
    let t = trim_str(s.as_str());
    if t.as_str().unicode_len() == 0 {
        None
    } else {
        Some(t)
    }
}

fn parse_port(s: &String) -> (r: Option<u16>)
    ensures
        r == parsed_u16(trimmed(s@)),
{
    let t = trim_str(s.as_str());
    let n = t.as_str().unicode_len();
    assert(t@.subrange(0, n as int) =~= t@);
    match parse_u64(t.as_str(), 0, n) {
        Some(v) => if v <= 65535 {
            Some(v as u16)
        } else {
            None
        },
        None => None,
    }
}

fn form_tag_list(s: &String) -> (r: Option<Vec<String>>)
    ensures
        tags_of(r) == form_tags(s@),
{
    let t = trim_str(s.as_str());
    let parts = split_char(t.as_str(), ',');
    let mut out: Vec<String> = Vec::new();
    let mut i: usize = 0;
    while i < parts.len()
        invariant
            i <= parts@.len(),
            string_views(parts@) == split_on(t@, ','),
            t@ == trimmed(s@),
            string_views(out@) == nonempty_trimmed(string_views(parts@).subrange(0, i as int)),
        decreases parts.len() - i,
    {
        let ghost prev = string_views(parts@).subrange(0, i as int);
        assert(string_views(parts@).subrange(0, i + 1) =~= prev.push(parts@[i as int]@));
        assert(prev.push(parts@[i as int]@).drop_last() =~= prev);
        let piece = trim_str(parts[i].as_str());
        if piece.as_str().unicode_len() > 0 {
            let ghost o0 = string_views(out@);
            out.push(piece);
            assert(string_views(out@) =~= o0.push(piece@));
        }
        i = i + 1;
    }
    assert(string_views(parts@).subrange(0, i as int) =~= string_views(parts@));
    if out.len() == 0 {
        None
    } else {
        Some(out)
    }
}

/// Drops every host named `name`.
fn remove_named(hosts: &mut Vec<Host>, name: &String)
    ensures
        final(hosts)@ == without_name(old(hosts)@, name@),
{
    let ghost orig = hosts@;
    let mut kept: Vec<Host> = Vec::new();
    let mut rest: Vec<Host> = Vec::new();
    // take the hosts out last first, then put back those that stay in their order
    while hosts.len() > 0
        invariant
            orig == old(hosts)@,
            hosts@ + rest@.reverse() == orig,
        decreases hosts.len(),
    {
        let ghost h0 = hosts@;
        let ghost r0 = rest@;
        let h = hosts.pop().unwrap();
        rest.push(h);
        assert(h0 == hosts@.push(h));
        assert(rest@.reverse() =~= seq![h] + r0.reverse());
        assert(hosts@ + rest@.reverse() =~= h0 + r0.reverse());
    }
    assert(rest@.reverse() =~= orig);
    while rest.len() > 0
        invariant
            orig == old(hosts)@,
            kept@ == without_name(orig.subrange(0, (orig.len() - rest@.len()) as int), name@),
            rest@.reverse() == orig.subrange((orig.len() - rest@.len()) as int, orig.len() as int),
            rest@.len() <= orig.len(),
        decreases rest.len(),
    {
        let ghost r0 = rest@;
        let ghost k = orig.len() - r0.len();
        let h = rest.pop().unwrap();
        assert(r0 == rest@.push(h));
        assert(r0.reverse() =~= seq![h] + rest@.reverse());
        assert(orig[k] == h) by {
            assert(r0.reverse()[0] == orig.subrange(k, orig.len() as int)[0]);
        }
        assert(rest@.reverse() =~= r0.reverse().drop_first());
        assert(orig.subrange(k, orig.len() as int).drop_first() =~= orig.subrange(k + 1, orig.len() as int));
        assert(orig.subrange(0, k + 1).drop_last() =~= orig.subrange(0, k));
        if h.name != *name {
            kept.push(h);
        }
    }
    assert(orig.subrange(0, orig.len() as int) =~= orig);
    *hosts = kept;
}

/// Saves the form into the database: the form's fields are checked in order (name,
/// host, port, then that the alias is free unless it is the one being edited), and on
/// success the host replaces the one being edited, or any host of the same name.
/// Editing a host that no longer exists changes nothing.
pub fn apply_host_form(db: &mut Database, state: &HostFormState) -> (r: Result<(), String>)
    ensures
        final(db).folders == old(db).folders,
        match form_error(old(db).hosts@, *state) {
            Some(e) => r matches Err(m) && m@ == e && final(db).hosts == old(db).hosts,
            None => r is Ok && if !state.is_edit || (state.original_name matches Some(o)
                && has_name(old(db).hosts@, o@)) {
                &&& final(db).hosts@.len() > 0
                &&& is_form_host(final(db).hosts@.last(), *state)
                &&& final(db).hosts@.drop_last() == match state.original_name {
                    Some(o) if state.is_edit => without_name(
                        without_name(old(db).hosts@, o@),
                        trimmed(state.name@),
                    ),
                    _ => without_name(old(db).hosts@, trimmed(state.name@)),
                }
            } else {
                final(db).hosts == old(db).hosts
            },
        },
{
    let name = trim_str(state.name.as_str());
    if name.as_str().unicode_len() == 0 {
        return Err(String::from_str("Name cannot be empty"));
    }
    let host = trim_str(state.host.as_str());
    if host.as_str().unicode_len() == 0 {
        return Err(String::from_str("Host cannot be empty"));
    }
    let port = match parse_port(&state.port) {
        Some(p) => p,
        None => {
            return Err(String::from_str("Port must be a number"));
        },
    };
    let taken = db.find(name.as_str()).is_some();
    let ghost hosts0 = db.hosts@;
    assert(taken == has_name(hosts0, name@)) by {
        if has_name(hosts0, name@) {
            let i = choose|i: int| 0 <= i < hosts0.len() && #[trigger] hosts0[i].name@ == name@;
            assert(hosts0[i].name@ == name@);
        }
    }
    let clash = match &state.original_name {
        Some(o) => name != *o && taken,
        None => taken,
    };
    if clash {
        let mut m = String::from_str("Host alias '");
        m.append(name.as_str());
        m.append("' already exists");
        return Err(m);
    }
    let user = trim_str(state.username.as_str());
    let username = if user.as_str().unicode_len() == 0 {
        String::from_str("root")
    } else {
        user
    };
    let new_host = Host {
        name: name.clone(),
        host,
        port,
        username,
        identity_file: optional_field(&state.identity_file),
        proxy_jump: optional_field(&state.proxy_jump),
        tags: form_tag_list(&state.tags),
        folder: optional_field(&state.folder),
    };
    if state.is_edit {
        match &state.original_name {
            Some(o) => {
                let present = db.find(o.as_str()).is_some();
                assert(present == has_name(hosts0, o@)) by {
                    if has_name(hosts0, o@) {
                        let i = choose|i: int| 0 <= i < hosts0.len() && #[trigger] hosts0[i].name@ == o@;
                        assert(hosts0[i].name@ == o@);
                    }
                }
                if present {
                    remove_named(&mut db.hosts, o);
                    remove_named(&mut db.hosts, &name);
                    db.hosts.push(new_host);
                }
            },
            None => {},
        }
    } else {
        remove_named(&mut db.hosts, &name);
        db.hosts.push(new_host);
    }
    Ok(())
}

} // verus!
