//! What a client asks the outbox for.

use vstd::prelude::*;

use crate::error::Error;
use crate::path;
use crate::state::{self, Ack, Item, ItemState, ItemView, Listing, State};
use crate::text;

verus! {

/// The longest that a wait sleeps between two looks at the outbox, in nanoseconds.
pub const WAIT_SLICE_NS: u64 = 5000000000;

/// How long a wait rests before it looks again, in milliseconds.
pub const WAIT_REST_MS: u64 = 50;

/// The lines that show the outbox, at `now`.
pub fn list(listing: &Listing, now: u64) -> (r: Vec<String>)
    ensures
        text::texts(r@) == state::item_texts(listing.items@, now),
{
    state::print_items(&listing.items, now)
}

/// What a wait says first.
pub open spec fn header_text(version: Seq<char>) -> Seq<char> {
    "#herdr-ferry "@ + version
}

/// What a wait says first: the version of this side.
pub fn header(version: &str) -> (r: String)
    ensures
        r@ == header_text(version@),
{
    let mut s = "#herdr-ferry ".to_owned();
    s.append(version);
    s
}

/// What a wait says of a queued item.
pub open spec fn waiting_text(it: ItemView) -> Seq<char> {
    it.id + "\t"@ + it.name + "\t"@ + text::dec(it.size) + "\t"@ + it.kind.text()
}

fn waiting_line(it: &Item) -> (r: String)
    ensures
        r@ == waiting_text(it@),
{
    let mut out = it.id.clone();
    out.append("\t");
    out.append(it.name.as_str());
    out.append("\t");
    text::push_dec(&mut out, it.size);
    out.append("\t");
    out.append(it.kind.as_str());
    out
}

/// What a wait does next.
pub enum WaitStep {
    /// Say these lines, and end with success.
    Items { lines: Vec<String> },
    /// End: the time is over.
    Timeout,
    /// Sleep for so many nanoseconds, unless the outbox changes before, and look again.
    Sleep { ns: u64 },
}

impl WaitStep {
    /// The exit code of a wait that ends with this step.
    pub fn exit_code(&self) -> (r: Option<u8>)
        ensures
            r == match self {
                WaitStep::Items { .. } => Some(0u8),
                WaitStep::Timeout => Some(2u8),
                WaitStep::Sleep { .. } => None,
            },
    {
        match self {
            WaitStep::Items { .. } => Some(0),
            WaitStep::Timeout => Some(2),
            WaitStep::Sleep { .. } => None,
        }
    }
}

/// What a wait does that finds the items `queued` and has `left_ns` nanoseconds left. It
/// never ends for want of time while an item is queued.
pub fn wait(queued: &Vec<Item>, left_ns: u128) -> (r: WaitStep)
    ensures
        match r {
            WaitStep::Items { lines } => queued@.len() > 0 && text::texts(lines@)
                == queued@.map_values(|it: Item| waiting_text(it@)),
            WaitStep::Timeout => queued@.len() == 0 && left_ns == 0,
            WaitStep::Sleep { ns } => queued@.len() == 0 && left_ns > 0 && ns == if left_ns
                < WAIT_SLICE_NS {
                left_ns as int
            } else {
                WAIT_SLICE_NS as int
            },
        },
{
    if queued.len() > 0 {
        let ghost line = |it: Item| waiting_text(it@);
        let mut lines: Vec<String> = Vec::new();
        for i in 0..queued.len()
            invariant
                line == |it: Item| waiting_text(it@),
                text::texts(lines@) == queued@.take(i as int).map_values(line),
        {
            let ghost before = lines@;
            lines.push(waiting_line(&queued[i]));
            proof {
                assert(text::texts(lines@) == text::texts(before).push(line(queued@[i as int])));
                assert(queued@.take(i + 1).map_values(line) == queued@.take(i as int).map_values(
                    line,
                ).push(line(queued@[i as int])));
            }
        }
        proof {
            assert(queued@.take(queued@.len() as int) == queued@);
        }
        return WaitStep::Items { lines };
    }
    if left_ns == 0 {
        return WaitStep::Timeout;
    }
    if left_ns < WAIT_SLICE_NS as u128 {
        WaitStep::Sleep { ns: left_ns as u64 }
    } else {
        WaitStep::Sleep { ns: WAIT_SLICE_NS }
    }
}

/// What is said of a claimed item.
pub open spec fn claimed_text(it: ItemView) -> Seq<char> {
    waiting_text(it) + "\t"@ + it.sha256
}

/// A claim at `now` of the item `id`, where its file was found: the item as it has to be
/// written, and what is said of it.
pub fn claim(state: &State, id: &str, found: Option<Item>, now: u64) -> (r: Result<
    (Item, String),
    Error,
>)
    ensures
        match r {
            Ok((it, line)) => found matches Some(was) && state::claimable(was, now) && it
                == state::claimed_at(was, now) && line@ == claimed_text(it@),
            Err(Error::NoSuchItem { id: x }) => found is None && x@ == id@,
            Err(Error::AlreadyAcked { id: x }) => found matches Some(was) && was.state
                == ItemState::Acked && x@ == id@,
            Err(Error::AlreadyClaimed { id: x }) => found matches Some(was) && was.state
                == ItemState::Claimed && !state::stale(was, now) && x@ == id@,
            Err(_) => false,
        },
{
    match state.claim(id, found, now) {
        Ok(it) => {
            let mut line = waiting_line(&it);
            line.append("\t");
            line.append(it.sha256.as_str());
            Ok((it, line))
        },
        Err(e) => Err(e),
    }
}

/// The delivery of the item `id`, where its file was found: what is to be done, and what
/// is said.
pub fn ack(state: &State, id: &str, found: Option<Item>) -> (r: Result<(Ack, String), Error>)
    ensures
        match r {
            Ok((Ack::Already { item }, line)) => found == Some(item) && item.state
                == ItemState::Acked && line@ == item.id@,
            Ok((Ack::Now { item, payload, entry }, line)) => {
                &&& found matches Some(was) && was.state != ItemState::Acked && item
                    == state::acked(was)
                &&& payload@ == path::path_joined(
                    state::item_path(state.root@, true, item.id@),
                    state::payload_name(item@),
                )
                &&& entry@ == (ItemView { direction: Some("outbox"@), ..item@ })
                &&& line@ == item.id@
            },
            Err(Error::NoSuchItem { id: x }) => found is None && x@ == id@,
            Err(_) => false,
        },
{
    match state.ack(id, found) {
        Ok(done) => {
            let line = match &done {
                Ack::Already { item } => item.id.clone(),
                Ack::Now { item, payload, entry } => item.id.clone(),
            };
            Ok((done, line))
        },
        Err(e) => Err(e),
    }
}

/// Where the payload of the item `id` lies, where its file was found.
pub fn cat(state: &State, id: &str, found: Option<Item>) -> (r: Result<String, Error>)
    ensures
        match r {
            Ok(p) => found matches Some(it) && p@ == path::path_joined(
                state::item_path(state.root@, true, it.id@),
                state::payload_name(it@),
            ),
            Err(Error::NoSuchItem { id: x }) => found is None && x@ == id@,
            Err(_) => false,
        },
{
    match state.read_item(id, found) {
        Ok(it) => Ok(state.outbox_payload(&it)),
        Err(e) => Err(e),
    }
}

proof fn lemma_waiting_fields(it: ItemView)
    ensures
        waiting_text(it) == state::tabbed(seq![it.id, it.name, text::dec(it.size), it.kind.text()]),
        claimed_text(it) == state::tabbed(
            seq![it.id, it.name, text::dec(it.size), it.kind.text(), it.sha256],
        ),
{
    reveal_strlit("\t");
    assert("\t"@ =~= seq!['\t']);
    reveal_with_fuel(text::joined, 6);
    let f = seq![it.id, it.name, text::dec(it.size), it.kind.text()];
    let g = seq![it.id, it.name, text::dec(it.size), it.kind.text(), it.sha256];
    assert(g.drop_last() =~= f);
    let d1 = f.drop_last();
    let d2 = d1.drop_last();
    let d3 = d2.drop_last();
    assert(d3[0] == it.id);
    assert(state::tabbed(d2) == it.id + seq!['\t'] + it.name);
    assert(state::tabbed(d1) == state::tabbed(d2) + seq!['\t'] + text::dec(it.size));
    assert(state::tabbed(f) == state::tabbed(d1) + seq!['\t'] + it.kind.text());
    assert(state::tabbed(g) == state::tabbed(f) + seq!['\t'] + it.sha256);
}

/// What a wait says of an item gives back its id, name, size and kind, and what is said of a
/// claim its digest too.
pub proof fn law_waiting_line_reads_back(it: ItemView)
    requires
        !it.id.contains('\t'),
        !it.name.contains('\t'),
        !it.sha256.contains('\t'),
    ensures
        ({
            let line = text::split_by(waiting_text(it), |c: char| c == '\t');
            &&& line.len() == 4 && line[0] == it.id && line[1] == it.name
            &&& text::decimal_value(line[2]) == it.size
            &&& line[3] == it.kind.text()
        }),
        ({
            let line = text::split_by(claimed_text(it), |c: char| c == '\t');
            &&& line.len() == 5 && line[0] == it.id && line[1] == it.name
            &&& text::decimal_value(line[2]) == it.size
            &&& line[3] == it.kind.text()
            &&& line[4] == it.sha256
        }),
{
    lemma_waiting_fields(it);
    state::lemma_no_tab(it, 0);
    text::law_decimal_reads_back(it.size);
    let f = seq![it.id, it.name, text::dec(it.size), it.kind.text()];
    let g = seq![it.id, it.name, text::dec(it.size), it.kind.text(), it.sha256];
    state::law_fields_read_back(f);
    state::law_fields_read_back(g);
}

/// A wait ends with the queued items where there are any, one line for each in their order,
/// and ends without them only once the time is over.
pub proof fn law_wait(queued: &Vec<Item>, left_ns: u128, r: WaitStep, i: int)
    requires
        call_ensures(wait, (queued, left_ns), r),
        0 <= i < queued@.len(),
    ensures
        r matches WaitStep::Items { lines } && lines@.len() == queued@.len() && lines@[i]@
            == waiting_text(queued@[i]@),
{
    if let WaitStep::Items { lines } = r {
        let all = queued@.map_values(|it: Item| waiting_text(it@));
        assert(text::texts(lines@).len() == all.len());
        assert(text::texts(lines@)[i] == lines@[i]@);
        assert(all[i] == waiting_text(queued@[i]@));
    }
}

/// Without items a wait goes on for as long as there is time, and sleeps no longer than that.
pub proof fn law_wait_for_items(queued: &Vec<Item>, left_ns: u128, r: WaitStep)
    requires
        call_ensures(wait, (queued, left_ns), r),
        queued@.len() == 0,
    ensures
        r is Timeout <==> left_ns == 0,
        r matches WaitStep::Sleep { ns } ==> 0 < ns <= left_ns && ns <= 5_000_000_000,
{
}

/// A claim of a client says what it got: the item of which it says id, name, size, kind and
/// digest.
pub proof fn law_claim_says_the_item(
    st: &State,
    id: &str,
    was: Item,
    now: u64,
    it: Item,
    line: String,
)
    requires
        call_ensures(claim, (st, id, Some(was), now), Ok((it, line))),
    ensures
        it == (Item { state: ItemState::Claimed, claimed_unix_ms: Some(now), ..was }),
        line@ == claimed_text(it@),
{
}

/// The payload that is handed out is that of the item.
pub proof fn law_cat(st: &State, id: &str, it: Item, r: Result<String, Error>)
    requires
        call_ensures(cat, (st, id, Some(it)), r),
    ensures
        r matches Ok(p) && p@ == path::path_joined(
            state::item_path(st.root@, true, it.id@),
            state::payload_name(it@),
        ),
{
}

} // verus!
