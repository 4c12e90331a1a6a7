use sshm::colors::parse_hex_rgb;
use sshm::forms::{apply_host_form, FolderFormState, HostFormState};
use sshm::matcher::{
    apply_filter, connect_candidates, filter_hosts, parse_tag_list, split_char, split_words, wildcard_match,
};
use sshm::models::{
    add_tags, build_rows, default_port, folders_of_hosts, migrate_entry, sort_unique, LegacyEntry, Row, default_username, eq_ignore_case, port_string, remove_tags, tags_to_string, Database,
    Host,
};

fn host(name: &str, addr: &str, user: &str, tags: Option<Vec<&str>>) -> Host {
    Host {
        name: name.to_string(),
        host: addr.to_string(),
        port: 22,
        username: user.to_string(),
        identity_file: None,
        proxy_jump: None,
        tags: tags.map(|v| v.into_iter().map(String::from).collect()),
        folder: None,
    }
}

#[test]
fn wildcard_cases() {
    assert!(wildcard_match("*", "anything"));
    assert!(wildcard_match("web", "my-WEB-1"));
    assert!(!wildcard_match("db", "my-web-1"));
    assert!(wildcard_match("web*", "webserver"));
    assert!(!wildcard_match("web*", "myweb"));
    assert!(wildcard_match("*prod", "db-prod"));
    assert!(!wildcard_match("*prod", "prod-db"));
    assert!(wildcard_match("a*c", "abc"));
    assert!(!wildcard_match("a*c", "abcd"));
    assert!(wildcard_match("10.*.1", "10.0.0.1"));
    assert!(wildcard_match("*a*b*", "xxaxxbxx"));
    assert!(!wildcard_match("*b*a*", "xxaxxbxx"));
    assert!(wildcard_match("", "x"));
}

#[test]
fn splitting() {
    assert_eq!(split_char("a*b**c", '*'), vec!["a", "b", "", "c"]);
    assert_eq!(split_char("", '*'), vec![""]);
    assert_eq!(split_words("  tag:prod\thost:10.*  web "), vec!["tag:prod", "host:10.*", "web"]);
    assert!(split_words("   ").is_empty());
}

#[test]
fn filter_hosts_by_words() {
    let hosts = vec![
        host("web1", "10.0.0.1", "ubuntu", Some(vec!["prod", "web"])),
        host("web2", "192.168.1.2", "root", Some(vec!["staging"])),
        host("db", "10.0.0.9", "postgres", None),
    ];
    let names = |v: Vec<&Host>| v.iter().map(|h| h.name.clone()).collect::<Vec<_>>();
    assert_eq!(names(filter_hosts(&hosts, "")), vec!["web1", "web2", "db"]);
    assert_eq!(names(filter_hosts(&hosts, "   ")), vec!["web1", "web2", "db"]);
    assert_eq!(names(filter_hosts(&hosts, "host:10.*")), vec!["web1", "db"]);
    assert_eq!(names(filter_hosts(&hosts, "tag:prod host:10.*")), vec!["web1"]);
    assert_eq!(names(filter_hosts(&hosts, "web")), vec!["web1", "web2"]);
    assert_eq!(names(filter_hosts(&hosts, "user:root")), vec!["web2"]);
    assert_eq!(names(filter_hosts(&hosts, "name:db")), vec!["db"]);
    assert!(filter_hosts(&hosts, "tag:none").is_empty());
}

#[test]
fn apply_filter_any_field() {
    let a = host("alpha", "1.1.1.1", "root", Some(vec!["edge"]));
    let b = host("beta", "2.2.2.2", "admin", None);
    let items = vec![&a, &b];
    let names = |v: Vec<&Host>| v.iter().map(|h| h.name.clone()).collect::<Vec<_>>();
    assert_eq!(names(apply_filter("", &items)), vec!["alpha", "beta"]);
    assert_eq!(names(apply_filter("  ", &items)), vec!["alpha", "beta"]);
    assert_eq!(names(apply_filter("edge", &items)), vec!["alpha"]);
    assert_eq!(names(apply_filter("ADMIN", &items)), vec!["beta"]);
    assert_eq!(names(apply_filter("2.2.*", &items)), vec!["beta"]);
    assert!(apply_filter("zzz", &items).is_empty());
}

#[test]
fn tags_display() {
    assert_eq!(tags_to_string(&None), "");
    assert_eq!(tags_to_string(&Some(Vec::new())), "");
    assert_eq!(tags_to_string(&Some(vec!["a".to_string()])), "a");
    assert_eq!(tags_to_string(&Some(vec!["a".to_string(), "b".to_string(), "c".to_string()])), "a,b,c");
}

#[test]
fn defaults_and_lookup() {
    assert_eq!(default_port(), 22);
    assert_eq!(default_username(), "root");
    assert_eq!(port_string(2222), "2222");
    let mut db = Database::empty();
    assert!(db.find("x").is_none());
    db.hosts.push(host("x", "h", "u", None));
    db.hosts.push(host("y", "h", "u", None));
    assert_eq!(db.find("y"), Some(1));
    assert_eq!(db.find("z"), None);
}

#[test]
fn folder_form_editing() {
    let mut f = FolderFormState::new_rename("Prod");
    assert_eq!(FolderFormState::fields_count(), 1);
    assert_eq!(f.name, "Prod");
    assert_eq!(f.original_name, "Prod");
    f.push_char('2');
    assert_eq!(f.name, "Prod2");
    f.pop_char();
    f.pop_char();
    assert_eq!(f.name, "Pro");
    if let Some(v) = f.active_value_mut() {
        v.push('x');
    }
    assert_eq!(f.name, "Prox");
    f.next_field();
    assert_eq!(f.selected_field, 1);
    assert!(f.active_value_mut().is_none());
    f.push_char('z');
    assert_eq!(f.name, "Prox");
    f.next_field();
    assert_eq!(f.selected_field, 0);
    f.prev_field();
    assert_eq!(f.selected_field, 1);
    f.prev_field();
    assert_eq!(f.selected_field, 0);
    let mut e = FolderFormState::new_rename("");
    e.pop_char();
    assert_eq!(e.name, "");
    assert!(e.error.is_none());
}

fn filled_form(name: &str, addr: &str, port: &str) -> HostFormState {
    let mut f = HostFormState::new_create(Some("Prod".to_string()));
    f.name = name.to_string();
    f.host = addr.to_string();
    f.port = port.to_string();
    f
}

#[test]
fn host_form_defaults_and_fields() {
    let mut f = HostFormState::new_create(None);
    assert_eq!(HostFormState::fields_count(), 8);
    assert_eq!((f.port.as_str(), f.username.as_str(), f.folder.as_str()), ("22", "root", ""));
    assert!(!f.is_edit);
    f.push_char('w');
    assert_eq!(f.name, "w");
    f.next_field();
    f.next_field();
    f.pop_char();
    assert_eq!(f.port, "2");
    f.prev_field();
    f.prev_field();
    f.prev_field();
    assert_eq!(f.selected_field, 8);
    assert!(f.active_value_mut().is_none());
    f.push_char('x');
    assert_eq!(f.folder, "");
    f.next_field();
    assert_eq!(f.selected_field, 0);
    assert_eq!(HostFormState::new_create(Some("Lab".to_string())).folder, "Lab");
}

#[test]
fn host_form_from_existing_host() {
    let mut db = Database::empty();
    db.hosts.push(host("web", "10.0.0.1", "ubuntu", Some(vec!["a", "b"])));
    db.hosts[0].port = 2222;
    let f = HostFormState::new_edit(&db, "web");
    assert!(f.is_edit);
    assert_eq!(f.original_name.as_deref(), Some("web"));
    assert_eq!((f.host.as_str(), f.port.as_str(), f.username.as_str(), f.tags.as_str()), ("10.0.0.1", "2222", "ubuntu", "a,b"));
    let g = HostFormState::new_edit(&db, "nope");
    assert!(!g.is_edit);
    assert_eq!(g.name, "");
}

#[test]
fn host_form_rejects_bad_input() {
    let mut db = Database::empty();
    db.hosts.push(host("web", "h", "u", None));
    assert_eq!(apply_host_form(&mut db, &filled_form("  ", "h", "22")), Err("Name cannot be empty".to_string()));
    assert_eq!(apply_host_form(&mut db, &filled_form("a", " ", "22")), Err("Host cannot be empty".to_string()));
    assert_eq!(apply_host_form(&mut db, &filled_form("a", "h", "70000")), Err("Port must be a number".to_string()));
    assert_eq!(apply_host_form(&mut db, &filled_form("a", "h", "x1")), Err("Port must be a number".to_string()));
    assert_eq!(
        apply_host_form(&mut db, &filled_form(" web ", "h", "22")),
        Err("Host alias 'web' already exists".to_string())
    );
    assert_eq!(db.hosts.len(), 1);
}

#[test]
fn host_form_creates_and_edits() {
    let mut db = Database::empty();
    db.hosts.push(host("web", "h", "u", None));
    let mut f = filled_form(" db ", " 10.0.0.9 ", " 2200 ");
    f.username = "  ".to_string();
    f.tags = " x, ,y ,".to_string();
    f.identity_file = " ~/.ssh/k ".to_string();
    assert_eq!(apply_host_form(&mut db, &f), Ok(()));
    assert_eq!(db.hosts.len(), 2);
    let h = &db.hosts[1];
    assert_eq!((h.name.as_str(), h.host.as_str(), h.port, h.username.as_str()), ("db", "10.0.0.9", 2200, "root"));
    assert_eq!(h.tags, Some(vec!["x".to_string(), "y".to_string()]));
    assert_eq!(h.identity_file.as_deref(), Some("~/.ssh/k"));
    assert_eq!(h.proxy_jump, None);
    assert_eq!(h.folder.as_deref(), Some("Prod"));

    let mut e = HostFormState::new_edit(&db, "web");
    e.name = "web2".to_string();
    assert_eq!(apply_host_form(&mut db, &e), Ok(()));
    let names: Vec<&str> = db.hosts.iter().map(|h| h.name.as_str()).collect();
    assert_eq!(names, vec!["db", "web2"]);

    let mut gone = HostFormState::new_edit(&db, "db");
    db.hosts.retain(|h| h.name != "db");
    gone.name = "db".to_string();
    assert_eq!(apply_host_form(&mut db, &gone), Ok(()));
    assert_eq!(db.hosts.len(), 1);
}

fn strings(v: &[&str]) -> Vec<String> {
    v.iter().map(|s| s.to_string()).collect()
}

#[test]
fn tags_added_without_duplicates() {
    assert_eq!(add_tags(None, strings(&["prod", "Web", "PROD"])), Some(strings(&["prod", "Web"])));
    assert_eq!(add_tags(Some(strings(&["a"])), strings(&["A", "b"])), Some(strings(&["a", "b"])));
    assert_eq!(add_tags(None, Vec::new()), None);
    assert!(eq_ignore_case("Ünï-A", "Ünï-a"));
    assert!(!eq_ignore_case("Ü", "ü"));
}

#[test]
fn tags_removed_ignoring_case() {
    assert_eq!(remove_tags(Some(strings(&["a", "B", "c"])), &strings(&["b", "C"])), Some(strings(&["a"])));
    assert_eq!(remove_tags(Some(strings(&["a"])), &strings(&["A"])), None);
    assert_eq!(remove_tags(None, &strings(&["a"])), None);
}

#[test]
fn folder_names_sorted_once() {
    assert_eq!(sort_unique(&strings(&["b", "a", "b", "C", "a"])), strings(&["C", "a", "b"]));
    assert!(sort_unique(&Vec::new()).is_empty());
}

#[test]
fn folder_add_delete_rename() {
    let mut db = Database::empty();
    assert!(db.add_folder(" Prod "));
    assert!(db.add_folder("Lab"));
    assert!(!db.add_folder("prod"));
    assert!(!db.add_folder("   "));
    assert_eq!(db.folders, strings(&["Lab", "Prod"]));

    let mut a = host("a", "h", "u", None);
    a.folder = Some("Prod".to_string());
    let mut b = host("b", "h", "u", None);
    b.folder = Some("Lab".to_string());
    db.hosts.push(a);
    db.hosts.push(b);

    assert_eq!(db.rename_folder(&"Prod".to_string(), "  "), Ok(false));
    assert_eq!(db.rename_folder(&"Prod".to_string(), "LAB"), Err("Folder 'LAB' already exists.".to_string()));
    assert_eq!(db.rename_folder(&"Prod".to_string(), " Live "), Ok(true));
    assert_eq!(db.folders, strings(&["Lab", "Live"]));
    assert_eq!(db.hosts[0].folder.as_deref(), Some("Live"));
    assert_eq!(db.hosts[1].folder.as_deref(), Some("Lab"));

    assert_eq!(db.delete_folder(&"Lab".to_string()), 1);
    assert_eq!(db.folders, strings(&["Live"]));
    assert_eq!(db.hosts[1].folder, None);
    assert_eq!(db.hosts[0].folder.as_deref(), Some("Live"));
}

#[test]
fn theme_colours() {
    assert_eq!(parse_hex_rgb("#b5bd68"), Some((181, 189, 104)));
    assert_eq!(parse_hex_rgb("  ##FFFFFF "), Some((255, 255, 255)));
    assert_eq!(parse_hex_rgb("282828"), Some((40, 40, 40)));
    assert_eq!(parse_hex_rgb("+12345"), Some((1, 35, 69)));
    assert_eq!(parse_hex_rgb("#12345"), None);
    assert_eq!(parse_hex_rgb("#12345g"), None);
    assert_eq!(parse_hex_rgb("#1234567"), None);
    assert_eq!(parse_hex_rgb(""), None);
}

fn row_names(rows: &[Row]) -> Vec<String> {
    rows.iter()
        .map(|r| match r {
            Row::Folder(f) => format!("[{}]", f),
            Row::Host(h) => h.name.clone(),
        })
        .collect()
}

#[test]
fn host_list_rows() {
    let mut db = Database::empty();
    db.folders = strings(&["Prod", "Lab"]);
    let mut a = host("a", "h", "u", None);
    a.folder = Some("Zoo".to_string());
    let mut b = host("b", "h", "u", None);
    b.folder = Some("Prod".to_string());
    db.hosts.push(a);
    db.hosts.push(b);
    db.hosts.push(host("c", "h", "u", None));
    let items: Vec<&Host> = db.hosts.iter().collect();
    let filtered: Vec<&Host> = vec![&db.hosts[2]];
    assert_eq!(row_names(&build_rows(&db, &items, &filtered, "", &None)), vec!["[Lab]", "[Prod]", "[Zoo]", "c"]);
    assert_eq!(row_names(&build_rows(&db, &items, &filtered, "", &Some("Prod".to_string()))), vec!["[..]", "b"]);
    assert_eq!(row_names(&build_rows(&db, &items, &filtered, "c", &Some("Prod".to_string()))), vec!["c"]);
}

#[test]
fn connect_lookup() {
    let hosts = vec![host("web", "h", "u", None), host("web-2", "h", "u", None), host("db", "h", "u", None)];
    let names = |v: Vec<&Host>| v.iter().map(|h| h.name.clone()).collect::<Vec<_>>();
    assert_eq!(names(connect_candidates(&hosts, "web")), vec!["web"]);
    assert_eq!(names(connect_candidates(&hosts, "we")), vec!["web", "web-2"]);
    assert!(connect_candidates(&hosts, "zz").is_empty());
}

#[test]
fn tag_list_argument() {
    assert_eq!(parse_tag_list("a, b c,,d"), strings(&["a", "b", "c", "d"]));
    assert!(parse_tag_list(" , ").is_empty());
}

fn legacy(alias: &str) -> LegacyEntry {
    LegacyEntry {
        alias: alias.to_string(),
        name: None,
        host: None,
        ip: None,
        port: None,
        username: None,
        identity_file: None,
        proxy_jump: None,
        folder: None,
        tags: None,
    }
}

#[test]
fn legacy_entries_migrate() {
    let mut e = legacy("old");
    assert!(migrate_entry(&e).is_none());
    e.ip = Some("10.1.1.1".to_string());
    e.port = Some(65536 + 2222);
    e.tags = Some(strings(&["x"]));
    let h = migrate_entry(&e).unwrap();
    assert_eq!((h.name.as_str(), h.host.as_str(), h.port, h.username.as_str()), ("old", "10.1.1.1", 2222, "root"));
    assert_eq!(h.tags, Some(strings(&["x"])));
    e.host = Some("new.example".to_string());
    e.name = Some("Named".to_string());
    e.port = None;
    let h = migrate_entry(&e).unwrap();
    assert_eq!((h.name.as_str(), h.host.as_str(), h.port), ("Named", "new.example", 22));
}

#[test]
fn folders_from_hosts() {
    let mut a = host("a", "h", "u", None);
    a.folder = Some("b".to_string());
    let mut b = host("b", "h", "u", None);
    b.folder = Some("a".to_string());
    let mut c = host("c", "h", "u", None);
    c.folder = Some("b".to_string());
    let hosts = vec![a, b, c, host("d", "h", "u", None)];
    assert_eq!(folders_of_hosts(&hosts), strings(&["a", "b"]));
}

#[test]
fn host_rename() {
    let mut db = Database::empty();
    db.hosts.push(host("a", "h1", "u", None));
    db.hosts.push(host("b", "h2", "u", None));
    assert_eq!(db.rename_host("zz", "c"), Ok(false));
    assert_eq!(db.rename_host("a", " "), Ok(false));
    assert_eq!(db.rename_host("a", "a"), Ok(false));
    assert_eq!(db.rename_host("a", "b"), Err("Alias 'b' already exists.".to_string()));
    assert_eq!(db.rename_host("a", "c"), Ok(true));
    assert_eq!(db.hosts[0].name, "c");
    assert_eq!(db.hosts[0].host, "h1");
    assert_eq!(db.hosts[1].name, "b");
}
