use herdr_ferry::error::Error;
use herdr_ferry::outbox::{self, WaitStep};
use herdr_ferry::state::{
    print_items, Ack, Item, ItemState, Kind, Listing, Source, State, CLAIM_TIMEOUT_MS,
    MAX_ACKED_SIDECARS,
};

const NOW: u64 = 1_724_800_000_000;

fn item(id: &str, state: ItemState) -> Item {
    let mut it = Item::made(
        id.to_string(),
        NOW,
        Kind::File,
        "dash.png",
        48213,
        "00ff",
        "image/png",
        None,
        Source::default(),
    );
    it.state = state;
    it
}

fn claimed(id: &str, at: Option<u64>) -> Item {
    let mut it = item(id, ItemState::Claimed);
    it.claimed_unix_ms = at;
    it
}

fn store() -> State {
    State { root: "/s".to_string() }
}

fn ids(items: &[Item]) -> Vec<&str> {
    items.iter().map(|i| i.id.as_str()).collect()
}

fn listing(items: Vec<Item>) -> Listing {
    Listing { items, reverted: vec![] }
}

fn message<T>(r: Result<T, Error>) -> String {
    match r {
        Ok(_) => panic!("an error is expected"),
        Err(e) => e.message(),
    }
}

#[test]
fn kinds_have_names() {
    for k in [Kind::File, Kind::Dir, Kind::ClipboardText, Kind::ClipboardImage] {
        assert!(matches!(Kind::parse(k.as_str()), Ok(x) if x == k));
    }
    assert_eq!(Kind::ClipboardImage.as_str(), "clipboard-image");
    assert_eq!(message(Kind::parse("File")), "unknown kind File");
}

#[test]
fn a_new_item_is_queued() {
    let src = Source {
        pane_id: Some("w1:p3".to_string()),
        workspace_id: Some("w1".to_string()),
        agent: None,
        cwd: None,
    };
    let a = Item::new(Kind::Dir, "dist", 7, "aa", "application/gzip", Some("n".to_string()), src);
    let b = Item::new(Kind::Dir, "dist", 7, "aa", "application/gzip", None, Source::default());
    assert_eq!(a.id.len(), 26);
    assert!(a.id.chars().all(|c| "0123456789ABCDEFGHJKMNPQRSTVWXYZ".contains(c)));
    assert_ne!(a.id, b.id);
    assert_eq!(a.state, ItemState::Queued);
    assert_eq!(a.claimed_unix_ms, None);
    assert_eq!(a.direction, None);
    assert_eq!(a.note.as_deref(), Some("n"));
    assert_eq!(a.source.workspace_id.as_deref(), Some("w1"));
    assert!(a.created_unix_ms > NOW);
    assert_eq!((a.name.as_str(), a.size, a.sha256.as_str()), ("dist", 7, "aa"));
}

#[test]
fn where_things_are_kept() {
    assert_eq!(State::open(Some("/p"), "/home/u").root, "/p");
    assert_eq!(State::open(Some(""), "/home/u").root, "/home/u/.herdr-ferry");
    assert_eq!(State::open(None, "/home/u").root, "/home/u/.herdr-ferry");
    let s = store();
    assert_eq!(s.outbox_dir(), "/s/outbox");
    assert_eq!(s.inbox_dir(), "/s/inbox");
    assert_eq!(s.history_path(), "/s/history.jsonl");
    assert_eq!(s.item_dir(true, "A"), "/s/outbox/A");
    assert_eq!(s.item_dir(false, "A"), "/s/inbox/A");
    assert_eq!(s.item_file(true, "A"), "/s/outbox/A/item.json");
    let mut it = item("A", ItemState::Queued);
    assert_eq!(s.outbox_payload(&it), "/s/outbox/A/payload");
    assert_eq!(s.inbox_payload(&it), "/s/inbox/A/dash.png");
    it.kind = Kind::Dir;
    assert_eq!(it.outbox_payload_name(), "dash.png.tar.gz");
    assert_eq!(s.outbox_payload(&it), "/s/outbox/A/dash.png.tar.gz");
    let f = s.write_item(true, &it);
    assert_eq!(f.dir, "/s/outbox/A");
    assert_eq!(f.tmp, "/s/outbox/A/item.json.tmp");
    assert_eq!(f.dest, "/s/outbox/A/item.json");
    assert!(matches!(s.read_item("A", Some(it)), Ok(x) if x.id == "A"));
    assert_eq!(message(s.read_item("B", None)), "no such item B");
}

#[test]
fn new_items_get_directories_of_their_own() {
    let s = store();
    let a = Item::new(Kind::File, "x", 1, "a", "m", None, Source::default());
    let b = Item::new(Kind::File, "x", 1, "a", "m", None, Source::default());
    assert_ne!(s.item_dir(false, &a.id), s.item_dir(false, &b.id));
    assert_eq!(s.item_dir(true, &a.id), format!("/s/outbox/{}", a.id));
}

#[test]
fn a_listing_is_sorted_and_skips_what_is_unreadable() {
    let found = vec![
        Some(item("03", ItemState::Queued)),
        None,
        Some(item("01", ItemState::Acked)),
        Some(item("02", ItemState::Queued)),
    ];
    let l = store().list_outbox(found, NOW);
    assert_eq!(ids(&l.items), vec!["01", "02", "03"]);
    assert!(l.reverted.is_empty());
    assert_eq!(ids(&store().queued_outbox(&l)), vec!["02", "03"]);
    let inbox = store().list_inbox(vec![Some(item("b", ItemState::Acked)), Some(item("a", ItemState::Acked))]);
    assert_eq!(ids(&inbox), vec!["a", "b"]);
}

#[test]
fn a_lost_claim_is_queued_again() {
    let found = vec![
        Some(claimed("01", Some(NOW - CLAIM_TIMEOUT_MS))),
        Some(claimed("02", Some(NOW - CLAIM_TIMEOUT_MS - 1))),
        Some(claimed("03", None)),
        Some(claimed("04", Some(NOW + 5))),
    ];
    let l = store().list_outbox(found, NOW);
    assert_eq!(l.items[0].state, ItemState::Claimed);
    assert_eq!(l.items[1].state, ItemState::Queued);
    assert_eq!(l.items[1].claimed_unix_ms, None);
    assert_eq!(l.items[2].state, ItemState::Queued);
    assert_eq!(l.items[3].state, ItemState::Claimed);
    assert_eq!(ids(&l.reverted), vec!["02", "03"]);
    assert!(l.reverted.iter().all(|i| i.state == ItemState::Queued));
    assert_eq!(ids(&store().queued_outbox(&l)), vec!["02", "03"]);
}

#[test]
fn a_claim_excludes_others_while_it_holds() {
    let s = store();
    let first = s.claim("01", Some(item("01", ItemState::Queued)), NOW).ok().unwrap();
    assert_eq!(first.state, ItemState::Claimed);
    assert_eq!(first.claimed_unix_ms, Some(NOW));
    let again = s.claim("01", Some(first.clone()), NOW + CLAIM_TIMEOUT_MS);
    assert_eq!(message(again), "01 already claimed");
    let later = s.claim("01", Some(first), NOW + CLAIM_TIMEOUT_MS + 1).ok().unwrap();
    assert_eq!(later.claimed_unix_ms, Some(NOW + CLAIM_TIMEOUT_MS + 1));
    assert_eq!(message(s.claim("01", Some(item("01", ItemState::Acked)), NOW)), "01 already acked");
    assert_eq!(message(s.claim("09", None, NOW)), "no such item 09");
}

#[test]
fn delivery_is_final_and_reported_once() {
    let s = store();
    let done = match s.ack("01", Some(claimed("01", Some(NOW)))) {
        Ok(Ack::Now { item, payload, entry }) => {
            assert_eq!(payload, "/s/outbox/01/payload");
            assert_eq!(entry.direction.as_deref(), Some("outbox"));
            assert_eq!(entry.state, ItemState::Acked);
            assert_eq!(item.direction, None);
            item
        }
        _ => panic!("a first delivery"),
    };
    assert_eq!(done.state, ItemState::Acked);
    assert!(matches!(s.ack("01", Some(done.clone())), Ok(Ack::Already { item }) if item.id == "01"));
    assert_eq!(message(s.claim("01", Some(done.clone()), u64::MAX)), "01 already acked");
    let l = s.list_outbox(vec![Some(done)], u64::MAX);
    assert_eq!(l.items[0].state, ItemState::Acked);
    assert_eq!(message(s.ack("02", None)), "no such item 02");
}

#[test]
fn undelivered_bytes_are_counted() {
    let s = store();
    let l = listing(vec![
        item("1", ItemState::Queued),
        item("2", ItemState::Acked),
        claimed("3", Some(NOW)),
    ]);
    assert_eq!(s.outbox_bytes(&l), 2 * 48213);
    assert_eq!(s.outbox_bytes(&listing(vec![])), 0);
    assert!(s.countable(&l, u64::MAX - 2 * 48213));
    assert!(!s.countable(&l, u64::MAX - 2 * 48213 + 1));
    let mut big = item("1", ItemState::Queued);
    big.size = u64::MAX;
    assert!(!s.countable(&listing(vec![big.clone(), big]), 0));
}

#[test]
fn duplicates_within_the_window() {
    let s = store();
    let mut other = item("0", ItemState::Queued);
    other.sha256 = "11".to_string();
    let l = listing(vec![other, item("1", ItemState::Acked), item("2", ItemState::Queued)]);
    assert_eq!(s.find_dedupe(&l, "00ff", NOW + 2000).unwrap().id, "2");
    assert!(s.find_dedupe(&l, "00ff", NOW + 2001).is_none());
    assert_eq!(s.find_dedupe(&l, "00ff", NOW - 50_000).unwrap().id, "2");
    assert!(s.find_dedupe(&l, "aa", NOW).is_none());
    let held = listing(vec![claimed("3", Some(NOW))]);
    assert!(s.find_dedupe(&held, "00ff", NOW).is_none());
}

#[test]
fn pruning_forgets_the_oldest_delivered() {
    let s = store();
    let mut found: Vec<Option<Item>> =
        (0..MAX_ACKED_SIDECARS + 3).rev().map(|i| Some(item(&format!("{i:05}"), ItemState::Acked))).collect();
    found.push(Some(item("00000a", ItemState::Queued)));
    let gone = s.prune_outbox(found);
    assert_eq!(gone, vec!["/s/outbox/00000", "/s/outbox/00001", "/s/outbox/00002"]);
    let few = (0..MAX_ACKED_SIDECARS).map(|i| Some(item(&format!("{i:05}"), ItemState::Acked))).collect();
    assert!(s.prune_outbox(few).is_empty());
}

#[test]
fn history_shows_the_last_transfers() {
    let s = store();
    let mut a = s.append_history(&item("01", ItemState::Acked), "outbox");
    a.note = Some("look".to_string());
    let b = s.append_history(&item("02", ItemState::Acked), "inbox");
    let mut c = item("03", ItemState::Acked);
    c.kind = Kind::ClipboardImage;
    let found = || vec![Some(a.clone()), None, Some(b.clone()), Some(c.clone())];
    assert_eq!(ids(&s.read_history(found(), 2)), vec!["02", "03"]);
    assert_eq!(ids(&s.read_history(found(), 9)), vec!["01", "02", "03"]);
    assert!(s.read_history(found(), 0).is_empty());
    assert_eq!(
        s.print_history(found(), 3),
        vec![
            "01  outbox file               47.1K  dash.png  — look",
            "02  inbox  file               47.1K  dash.png",
            "03  ?      clipboard-image    47.1K  dash.png",
        ]
    );
    assert_eq!(s.print_history(vec![], 3), vec!["(no transfers yet)"]);
}

#[test]
fn lists_in_words() {
    let items = vec![item("01", ItemState::Queued), claimed("02", Some(NOW)), item("03", ItemState::Acked)];
    assert_eq!(
        print_items(&items, NOW + 61_000),
        vec![
            "01\tdash.png\t48213\tfile\tqueued\t1m",
            "02\tdash.png\t48213\tfile\tclaimed\t1m",
            "03\tdash.png\t48213\tfile\tacked\t1m",
        ]
    );
    assert_eq!(print_items(&vec![], NOW), vec!["(empty)"]);
    assert_eq!(outbox::list(&listing(vec![]), NOW), vec!["(empty)"]);
    assert_eq!(herdr_ferry::inbox::list(&items, NOW).len(), 3);
}

#[test]
fn waiting_ends_with_items_or_in_time() {
    assert_eq!(outbox::header("1.2.3"), "#herdr-ferry 1.2.3");
    let q = vec![item("01", ItemState::Queued), item("02", ItemState::Queued)];
    match outbox::wait(&q, 0) {
        WaitStep::Items { lines } => {
            assert_eq!(lines, vec!["01\tdash.png\t48213\tfile", "02\tdash.png\t48213\tfile"])
        }
        _ => panic!("items"),
    }
    assert_eq!(outbox::wait(&q, 0).exit_code(), Some(0));
    assert!(matches!(outbox::wait(&vec![], 0), WaitStep::Timeout));
    assert_eq!(outbox::wait(&vec![], 0).exit_code(), Some(2));
    assert!(matches!(outbox::wait(&vec![], 1), WaitStep::Sleep { ns: 1 }));
    assert!(matches!(outbox::wait(&vec![], 55_000_000_000), WaitStep::Sleep { ns: 5_000_000_000 }));
    assert_eq!(outbox::wait(&vec![], 7).exit_code(), None);
}

#[test]
fn what_a_client_is_told() {
    let s = store();
    let (it, line) = outbox::claim(&s, "01", Some(item("01", ItemState::Queued)), NOW).ok().unwrap();
    assert_eq!(it.state, ItemState::Claimed);
    assert_eq!(line, "01\tdash.png\t48213\tfile\t00ff");
    assert_eq!(message(outbox::claim(&s, "01", Some(it.clone()), NOW)), "01 already claimed");
    assert_eq!(outbox::cat(&s, "01", Some(it.clone())).ok().unwrap(), "/s/outbox/01/payload");
    assert_eq!(message(outbox::cat(&s, "07", None)), "no such item 07");
    let (_, line) = outbox::ack(&s, "01", Some(it)).ok().unwrap();
    assert_eq!(line, "01");
    assert_eq!(message(outbox::ack(&s, "07", None)), "no such item 07");
}

#[test]
fn what_an_item_carries_never_changes() {
    let s = store();
    let start = item("01", ItemState::Queued);
    let held = s.claim("01", Some(start.clone()), NOW).ok().unwrap();
    let back = s.list_outbox(vec![Some(held)], NOW + CLAIM_TIMEOUT_MS + 1).items.remove(0);
    let again = s.claim("01", Some(back), NOW + CLAIM_TIMEOUT_MS + 2).ok().unwrap();
    let done = match s.ack("01", Some(again)) {
        Ok(Ack::Now { item, .. }) => item,
        _ => panic!("a first delivery"),
    };
    assert_eq!((done.id, done.name, done.size), (start.id, start.name, start.size));
    assert_eq!((done.sha256, done.mime, done.note), (start.sha256, start.mime, start.note));
    assert_eq!((done.kind, done.created_unix_ms), (start.kind, start.created_unix_ms));
    assert_eq!(done.state, ItemState::Acked);
    assert_eq!(done.claimed_unix_ms, Some(NOW + CLAIM_TIMEOUT_MS + 2));
}
