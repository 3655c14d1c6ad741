use hostab::api::{
    add_entry, disable_entry, edit_entry, enable_entry, list_entries, remove_by_ip,
    remove_hostname, toggle_entry, ApiBody,
};
use hostab::store::Store;

fn message(body: &ApiBody) -> String {
    match body {
        ApiBody::Message(m) => m.clone(),
        ApiBody::Error(e) => e.clone(),
        ApiBody::Count { message, .. } => message.clone(),
        ApiBody::Added { message, .. } => message.clone(),
        ApiBody::Rows(_) => String::new(),
    }
}

#[test]
fn api_list_compacts_by_address() {
    let store = Store::with_content(
        "hosts",
        "10.0.0.1 a.local b.local # one\n10.0.0.1 c.local # two\n# 10.0.0.2 d.local\n",
    );
    let r = list_entries(&store, None, None, None, false, false, false, false);
    assert_eq!(r.status, 200);
    match r.body {
        ApiBody::Rows(rows) => {
            assert_eq!(rows.len(), 2);
            assert_eq!(rows[0].ip, "10.0.0.1");
            assert_eq!(rows[0].host, "a.local b.local c.local");
            assert_eq!(rows[0].comment, Some("one; two".to_string()));
            assert_eq!(rows[0].canonical, None);
            assert_eq!(rows[1].host, "d.local");
        },
        _ => panic!("rows expected"),
    }
}

#[test]
fn api_list_expanded_and_selected() {
    let store = Store::with_content("hosts", "10.0.0.1 a.local b.local\n10.0.0.2 c.local\n");
    let r = list_entries(&store, None, None, None, false, false, true, false);
    match r.body {
        ApiBody::Rows(rows) => {
            assert_eq!(rows.len(), 3);
            assert_eq!(rows[1].host, "b.local");
            assert_eq!(rows[1].canonical, Some("a.local".to_string()));
        },
        _ => panic!("rows expected"),
    }
    let r = list_entries(&store, Some("10.0.0.2"), None, None, false, false, true, false);
    match r.body {
        ApiBody::Rows(rows) => {
            assert_eq!(rows.len(), 1);
            assert_eq!(rows[0].host, "c.local");
        },
        _ => panic!("rows expected"),
    }
    let r = list_entries(&store, None, Some("b.local"), Some("b*"), false, false, true, false);
    match r.body {
        ApiBody::Rows(rows) => assert_eq!(rows.len(), 2),
        _ => panic!("rows expected"),
    }
}

#[test]
fn api_add_validates_then_adds() {
    let mut store = Store::with_content("hosts", "10.0.0.1 svc.local\n");
    let r = add_entry(&mut store, "nope", &["a.local".into()], None);
    assert_eq!(r.status, 400);
    assert_eq!(message(&r.body), "invalid IP address: nope");
    let r = add_entry(&mut store, "10.0.0.2", &["ok.local".into(), "-bad".into()], None);
    assert_eq!(r.status, 400);
    assert_eq!(message(&r.body), "invalid hostname: -bad");
    let r = add_entry(&mut store, "10.0.0.2", &["ok.local".into()], Some("a\nb"));
    assert_eq!(r.status, 400);
    assert_eq!(message(&r.body), "invalid comment");
    assert_eq!(store.content(), "10.0.0.1 svc.local\n");
    let r = add_entry(&mut store, "10.0.0.2", &["svc.local".into(), "x.local".into()], None);
    assert_eq!(r.status, 201);
    match r.body {
        ApiBody::Added { message, duplicates } => {
            assert_eq!(message, "Added 10.0.0.2 svc.local x.local");
            assert_eq!(duplicates, vec!["svc.local"]);
        },
        _ => panic!("added expected"),
    }
}

#[test]
fn api_remove_answers() {
    let mut store = Store::with_content("hosts", "10.0.0.1 a.local b.local\n10.0.0.2 c.local\n");
    let r = remove_hostname(&mut store, "b.local");
    assert_eq!(r.status, 200);
    match r.body {
        ApiBody::Count { count, message } => {
            assert_eq!(count, 1);
            assert_eq!(message, "Removed 1 hostname(s)");
        },
        _ => panic!("count expected"),
    }
    let r = remove_by_ip(&mut store, None);
    assert_eq!(r.status, 400);
    assert_eq!(message(&r.body), "missing ip query parameter");
    let r = remove_by_ip(&mut store, Some("10.0.0.2"));
    assert_eq!(r.status, 200);
    assert_eq!(message(&r.body), "Removed 1 entry(s) for IP 10.0.0.2");
    assert_eq!(store.content(), "10.0.0.1 a.local\n");
}

#[test]
fn api_edit_answers() {
    let mut store = Store::with_content("hosts", "10.0.0.1 a.local\n");
    let r = edit_entry(&mut store, "a.local", "bad-ip");
    assert_eq!(r.status, 400);
    let r = edit_entry(&mut store, "zz.local", "10.0.0.5");
    assert_eq!(r.status, 404);
    assert_eq!(message(&r.body), "Hostname 'zz.local' not found");
    let r = edit_entry(&mut store, "a.local", "10.0.0.5");
    assert_eq!(r.status, 200);
    assert_eq!(message(&r.body), "Moved 'a.local' to 10.0.0.5");
    assert_eq!(store.content(), "10.0.0.5 a.local\n");
}

#[test]
fn api_state_answers() {
    let mut store = Store::with_content("hosts", "10.0.0.1 a.local b.local\n");
    let r = disable_entry(&mut store, "b.local");
    assert_eq!(r.status, 200);
    assert_eq!(message(&r.body), "Disabled b.local");
    let r = disable_entry(&mut store, "zz.local");
    assert_eq!(r.status, 404);
    let r = enable_entry(&mut store, "b.local");
    assert_eq!(r.status, 200);
    assert_eq!(message(&r.body), "Enabled b.local");
    let r = enable_entry(&mut store, "b.local");
    assert_eq!(r.status, 404);
    let r = toggle_entry(&mut store, "a.local");
    assert_eq!(r.status, 200);
    assert_eq!(message(&r.body), "disabled a.local");
}
