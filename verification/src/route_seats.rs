//! Route chains over the members of a committed storage set: what a write
//! records at each route position, when a recorded write continues and when
//! it starts again at the leader, and how a member's ByteCommit is taken
//! from the mirrors that hold it.

use vstd::prelude::*;
use crate::bytes::{bytes_eq, copy_bytes};
use crate::error::{SdkError, text};

verus! {

/// Links a chain needs to be final.
pub const FINAL_LINKS: usize = 3;

/// A member's record of one arrival: the encoded record a chain carries.
#[derive(Debug)]
pub struct ArrivalRecord {
    pub bytes: Vec<u8>,
}

/// What one route position recorded for a chain.
#[derive(Debug)]
pub enum ChainSlot {
    /// The seat answered: its arrival record is the chain's link there.
    Link(ArrivalRecord),
    /// The seat did not answer; the position is closed for this chain.
    NoResponse,
}

/// The content of a slot: `Some(record bytes)` for a link.
pub open spec fn slot_view(s: ChainSlot) -> Option<Seq<u8>> {
    match s {
        ChainSlot::Link(r) => Some(r.bytes@),
        ChainSlot::NoResponse => None,
    }
}

pub open spec fn slots_view(s: Seq<ChainSlot>) -> Seq<Option<Seq<u8>>> {
    s.map_values(|x: ChainSlot| slot_view(x))
}

/// What one cell's write produced at each route position, in route order.
#[derive(Debug)]
pub struct WriteReport {
    pub slots: Vec<ChainSlot>,
}

/// The number of links among `s`.
pub open spec fn link_count(s: Seq<Option<Seq<u8>>>) -> nat
    decreases s.len(),
{
    if s.len() == 0 {
        0
    } else {
        link_count(s.drop_last()) + if s.last() is Some { 1nat } else { 0nat }
    }
}

impl WriteReport {
    pub open spec fn spec_reached_leader(&self) -> bool {
        self.slots@.len() > 0 && self.slots@[0] is Link
    }

    /// Whether every position of a route of `route_len` seats is recorded,
    /// with fewer links than finality needs: such a chain can never become
    /// final.
    pub open spec fn spec_closed_short(&self, route_len: nat) -> bool {
        self.slots@.len() >= route_len && link_count(slots_view(self.slots@)) < FINAL_LINKS
    }

    /// Whether the leader answered with a link. Only the leader's copy can
    /// hold the cell.
    pub fn reached_leader(&self) -> (r: bool)
        ensures
            r == self.spec_reached_leader(),
    {
        self.slots.len() > 0 && match &self.slots[0] {
            ChainSlot::Link(_) => true,
            ChainSlot::NoResponse => false,
        }
    }

    /// Whether the chain is recorded at every position of a route of
    /// `route_len` seats with fewer links than finality needs.
    pub fn closed_short(&self, route_len: usize) -> (r: bool)
        ensures
            r == self.spec_closed_short(route_len as nat),
    {
        if self.slots.len() < route_len {
            return false;
        }
        let mut links: usize = 0;
        let mut i: usize = 0;
        while i < self.slots.len()
            invariant
                i <= self.slots@.len(),
                links == link_count(slots_view(self.slots@.subrange(0, i as int))),
                links <= i,
            decreases self.slots@.len() - i,
        {
            proof {
                let sub = self.slots@.subrange(0, i + 1);
                assert(slots_view(sub).drop_last() =~= slots_view(self.slots@.subrange(0, i as int)));
                assert(slots_view(sub).last() == slot_view(self.slots@[i as int]));
            }
            if let ChainSlot::Link(_) = &self.slots[i] {
                links = links + 1;
            }
            i = i + 1;
        }
        assert(self.slots@.subrange(0, self.slots@.len() as int) =~= self.slots@);
        links < FINAL_LINKS
    }
}

/// Whether a slot is a link: the seat answered with its record.
pub open spec fn is_link(s: ChainSlot) -> bool {
    s is Link
}

proof fn lemma_link_count_is_the_links(s: Seq<ChainSlot>)
    ensures
        link_count(slots_view(s)) == s.filter(|x: ChainSlot| is_link(x)).len(),
    decreases s.len(),
{
    reveal(Seq::filter);
    if s.len() > 0 {
        lemma_link_count_is_the_links(s.drop_last());
        assert(slots_view(s).drop_last() =~= slots_view(s.drop_last()));
        assert(slots_view(s).last() == slot_view(s.last()));
    }
}

/// A chain is closed short exactly when it is recorded at every position of
/// the route and fewer of its slots than finality needs are links (seats
/// that did not answer do not count); a chain with at least as many links as
/// finality needs is never closed short.
pub proof fn lemma_closed_short_counts_the_links(w: WriteReport, route_len: nat)
    ensures
        w.spec_closed_short(route_len) <==> (w.slots@.len() >= route_len && w.slots@.filter(|x: ChainSlot| is_link(x)).len()
            < FINAL_LINKS),
        w.slots@.filter(|x: ChainSlot| is_link(x)).len() >= FINAL_LINKS ==> !w.spec_closed_short(route_len),
{
    lemma_link_count_is_the_links(w.slots@);
}

/// A recorded write that holds its leader link and at least as many links
/// as finality needs always continues; it never starts again at the leader.
pub proof fn lemma_final_chain_continues(w: WriteReport, route_len: nat)
    requires
        w.spec_reached_leader(),
        w.slots@.filter(|x: ChainSlot| is_link(x)).len() >= FINAL_LINKS,
    ensures
        continuable(w, route_len),
{
    lemma_closed_short_counts_the_links(w, route_len);
}

/// Where a write of a value starts.
#[derive(Debug)]
pub enum WriteStart {
    /// Continue the recorded chain from the position after its last.
    Continue(WriteReport),
    /// Start a new chain at the leader.
    FromLeader,
}

/// A recorded write that has its leader link and did not close short
/// continues; any other write, or none, starts at the leader, whose record of
/// the value's first copy begins a new chain.
pub fn write_start(recorded: Option<WriteReport>, route_len: usize) -> (r: WriteStart)
    ensures
        match recorded {
            Some(w) => if w.spec_reached_leader() && !w.spec_closed_short(route_len as nat) {
                r matches WriteStart::Continue(c) && c == w
            } else {
                r is FromLeader
            },
            None => r is FromLeader,
        },
{
    match recorded {
        Some(w) => {
            if w.reached_leader() && !w.closed_short(route_len) {
                WriteStart::Continue(w)
            } else {
                WriteStart::FromLeader
            }
        },
        None => WriteStart::FromLeader,
    }
}

/// Whether a recorded chain can be continued: it has its leader link and
/// did not close short.
pub open spec fn continuable(w: WriteReport, route_len: nat) -> bool {
    w.spec_reached_leader() && !w.spec_closed_short(route_len)
}

/// A position pair continues only when both its recorded chains can;
/// otherwise both start again at the leader, in one transaction there.
pub fn position_pair_continues(ful: &Option<WriteReport>, root: &Option<WriteReport>, route_len: usize) -> (r: bool)
    ensures
        r <==> (ful matches Some(f) && root matches Some(c) && continuable(*f, route_len as nat) && continuable(*c, route_len as nat)),
{
    match (ful, root) {
        (Some(f), Some(c)) => f.reached_leader() && !f.closed_short(route_len) && c.reached_leader()
            && !c.closed_short(route_len),
        _ => false,
    }
}

/// The position a recorded write continues at: the one after the last it
/// reached, when the route has it and the write holds its leader link;
/// `None` when the write is returned as it is.
pub fn continue_position(report: &WriteReport, route_len: usize) -> (r: Option<usize>)
    ensures
        r is Some <==> (report.slots@.len() < route_len && report.spec_reached_leader()),
        r matches Some(p) ==> p == report.slots@.len(),
{
    let position = report.slots.len();
    if position >= route_len {
        return None;
    }
    if !report.reached_leader() {
        return None;
    }
    Some(position)
}

/// Whether a continued write now reaches the end of its route.
pub fn reaches_route_end(report: &WriteReport, route_len: usize) -> (r: bool)
    ensures
        r == (report.slots@.len() == route_len),
{
    report.slots.len() == route_len
}

/// The report of a write the leader did not answer, for each of `n` values:
/// nothing went further.
pub fn leader_unanswered(n: usize) -> (r: Vec<WriteReport>)
    ensures
        r@.len() == n,
        forall|i: int| 0 <= i < n ==> slots_view((#[trigger] r@[i]).slots@) == seq![None::<Seq<u8>>],
{
    let mut out: Vec<WriteReport> = Vec::new();
    let mut i: usize = 0;
    while i < n
        invariant
            i <= n,
            out@.len() == i,
            forall|k: int| 0 <= k < i ==> slots_view((#[trigger] out@[k]).slots@) == seq![None::<Seq<u8>>],
        decreases n - i,
    {
        let mut slots: Vec<ChainSlot> = Vec::new();
        slots.push(ChainSlot::NoResponse);
        proof {
            assert(slots_view(slots@) =~= seq![None::<Seq<u8>>]);
        }
        out.push(WriteReport { slots });
        i = i + 1;
    }
    out
}

/// What the leader holds for one value, read from its arrival log.
#[derive(Debug)]
pub enum LeaderHolds {
    /// The record of the value's first copy: its leader link.
    Record(ArrivalRecord),
    /// The leader answered and holds no copy of the value.
    Nothing,
    /// The leader did not answer.
    Unread,
}

/// The values the leader must be given, by index, in order: those it
/// answered it does not hold. `None` when it did not answer for a value:
/// then the write waits for it.
pub fn missing_at_leader(holds: &[LeaderHolds]) -> (r: Option<Vec<usize>>)
    ensures
        r is None <==> exists|i: int| 0 <= i < holds@.len() && (#[trigger] holds@[i]) is Unread,
        r matches Some(m) ==> (forall|k: int| 0 <= k < m@.len() ==> (#[trigger] m@[k]) < holds@.len()
            && holds@[m@[k] as int] is Nothing),
        r matches Some(m) ==> (forall|i: int| 0 <= i < holds@.len() && (#[trigger] holds@[i]) is Nothing ==> m@.contains(i as usize)),
        r matches Some(m) ==> (forall|a: int, b: int| 0 <= a < b < m@.len() ==> m@[a] < m@[b]),
{
    let mut out: Vec<usize> = Vec::new();
    let mut i: usize = 0;
    while i < holds.len()
        invariant
            i <= holds@.len(),
            forall|k: int| 0 <= k < i ==> !((#[trigger] holds@[k]) is Unread),
            forall|k: int| 0 <= k < out@.len() ==> (#[trigger] out@[k]) < i && holds@[out@[k] as int] is Nothing,
            forall|k: int| 0 <= k < i && (#[trigger] holds@[k]) is Nothing ==> out@.contains(k as usize),
            forall|a: int, b: int| 0 <= a < b < out@.len() ==> out@[a] < out@[b],
        decreases holds@.len() - i,
    {
        match &holds[i] {
            LeaderHolds::Unread => {
                return None;
            },
            LeaderHolds::Nothing => {
                let ghost before = out@;
                out.push(i);
                proof {
                    assert forall|k: int| 0 <= k < i + 1 && (#[trigger] holds@[k]) is Nothing implies out@.contains(
                        k as usize,
                    ) by {
                        if k < i {
                            let j = choose|j: int| 0 <= j < before.len() && before[j] == k as usize;
                            assert(out@[j] == k as usize);
                        } else {
                            assert(out@[out@.len() - 1] == k as usize);
                        }
                    }
                }
            },
            LeaderHolds::Record(_) => {},
        }
        i = i + 1;
    }
    Some(out)
}

/// The slots a seat's answer gives the `n` chains written there in one
/// transaction: a link per returned record, or no response for each when
/// the seat did not answer.
pub fn seat_slots(answer: Result<Vec<ArrivalRecord>, String>, n: usize) -> (r: Vec<ChainSlot>)
    ensures
        match answer {
            Ok(records) => r@.len() == records@.len() && forall|i: int| 0 <= i < r@.len() ==> slot_view(
                #[trigger] r@[i],
            ) == Some(records@[i].bytes@),
            Err(_) => r@.len() == n && forall|i: int| 0 <= i < n ==> (#[trigger] r@[i]) is NoResponse,
        },
{
    match answer {
        Ok(records) => {
            let mut records = records;
            let ghost all = records@;
            let mut out: Vec<ChainSlot> = Vec::new();
            let mut i: usize = 0;
            let len = records.len();
            while records.len() > 0
                invariant
                    len == all.len(),
                    records@ == all.subrange(i as int, all.len() as int),
                    i + records@.len() == len,
                    out@.len() == i,
                    forall|k: int| 0 <= k < i ==> slot_view(#[trigger] out@[k]) == Some(all[k].bytes@),
                decreases records@.len(),
            {
                let rec = records.remove(0);
                out.push(ChainSlot::Link(rec));
                proof {
                    assert(records@ =~= all.subrange(i + 1, all.len() as int));
                }
                i = i + 1;
            }
            out
        },
        Err(_) => {
            let mut out: Vec<ChainSlot> = Vec::new();
            let mut i: usize = 0;
            while i < n
                invariant
                    i <= n,
                    out@.len() == i,
                    forall|k: int| 0 <= k < i ==> (#[trigger] out@[k]) is NoResponse,
                decreases n - i,
            {
                out.push(ChainSlot::NoResponse);
                i = i + 1;
            }
            out
        },
    }
}

/// A recorded write must name the route of the cell it is found at: the same
/// seed and committed set.
pub fn check_recorded_route(
    recorded_seed: &[u8; 32],
    recorded_set: &[u8; 32],
    cell_seed: &[u8; 32],
    cell_set: &[u8; 32],
) -> (r: Result<(), SdkError>)
    ensures
        r is Ok <==> (recorded_seed == cell_seed && recorded_set == cell_set),
        r matches Err(e) ==> e is Storage && e.spec_detail() == "a recorded write at this cell names another route"@,
{
    if !bytes_eq(recorded_seed.as_slice(), cell_seed.as_slice()) || !bytes_eq(
        recorded_set.as_slice(),
        cell_set.as_slice(),
    ) {
        proof {
            if recorded_seed == cell_seed {
                assert(recorded_set@ != cell_set@);
            }
        }
        return Err(SdkError::Storage(text("a recorded write at this cell names another route")));
    }
    proof {
        assert(*recorded_seed =~= *cell_seed);
        assert(*recorded_set =~= *cell_set);
    }
    Ok(())
}

/// The number of values the leader answered it does not hold among the
/// first `i`: the index of value `i`'s record in the leader's answer to the
/// one put of all of them.
pub open spec fn nothing_rank(holds: Seq<LeaderHolds>, i: int) -> nat
    decreases i,
{
    if i <= 0 {
        0
    } else {
        nothing_rank(holds, i - 1) + if holds[i - 1] is Nothing { 1nat } else { 0nat }
    }
}

/// The leader link of value `i`: the record of its first copy when the leader
/// held it, else the record the leader returned for it, if it returned one.
pub open spec fn spec_leader_link(holds: Seq<LeaderHolds>, records: Seq<ArrivalRecord>, i: int) -> Option<Seq<u8>> {
    match holds[i] {
        LeaderHolds::Record(r) => Some(r.bytes@),
        LeaderHolds::Nothing => if nothing_rank(holds, i) < records.len() {
            Some(records[nothing_rank(holds, i) as int].bytes@)
        } else {
            None
        },
        LeaderHolds::Unread => None,
    }
}

/// The record of the first copy of `v` in a leader's arrival log (each
/// entry a value and the record of its arrival), if the log holds one.
pub open spec fn first_record(log: Seq<(Seq<u8>, Seq<u8>)>, v: Seq<u8>) -> Option<Seq<u8>>
    decreases log.len(),
{
    if log.len() == 0 {
        None
    } else {
        match first_record(log.drop_last(), v) {
            Some(r) => Some(r),
            None => if log.last().0 == v {
                Some(log.last().1)
            } else {
                None
            },
        }
    }
}

/// What a leader that answered says it holds for a value, as read from its
/// log: the record of the first copy, or that it holds none.
pub open spec fn holds_reads(h: LeaderHolds, log: Seq<(Seq<u8>, Seq<u8>)>, v: Seq<u8>) -> bool {
    match first_record(log, v) {
        Some(r) => h matches LeaderHolds::Record(rec) && rec.bytes@ == r,
        None => h is Nothing,
    }
}

/// An earlier write's record is reused. A value `a` written at the leader
/// (its arrival recorded as `ra`) is, at the next write that carries it
/// together with a value `b` the leader does not hold, read back as held:
/// it is not put at the leader again, only `b` is, and `a`'s chain begins
/// with the link `ra` while `b`'s begins with the record the leader returns
/// for `b`.
pub proof fn lemma_earlier_record_is_reused(
    log: Seq<(Seq<u8>, Seq<u8>)>,
    a: Seq<u8>,
    ra: Seq<u8>,
    b: Seq<u8>,
    holds: Seq<LeaderHolds>,
    records: Seq<ArrivalRecord>,
)
    requires
        first_record(log, a) is None,
        first_record(log, b) is None,
        a != b,
        holds.len() == 2,
        holds_reads(holds[0], log.push((a, ra)), a),
        holds_reads(holds[1], log.push((a, ra)), b),
        records.len() >= 1,
    ensures
        holds[0] matches LeaderHolds::Record(r) && r.bytes@ == ra,
        holds[1] is Nothing,
        spec_leader_link(holds, records, 0) == Some(ra),
        spec_leader_link(holds, records, 1) == Some(records[0].bytes@),
{
    let log2 = log.push((a, ra));
    assert(log2.drop_last() =~= log);
    assert(first_record(log2, a) == Some(ra));
    assert(first_record(log2, b) is None);
    assert(nothing_rank(holds, 0) == 0);
    assert(nothing_rank(holds, 1) == 0);
}

/// Whether the leader answered for every value and gave a link for each.
pub open spec fn leader_gave_links(holds: Seq<LeaderHolds>, records: Seq<ArrivalRecord>) -> bool {
    forall|i: int| 0 <= i < holds.len() ==> spec_leader_link(holds, records, i) is Some
}

/// The reports after the leader, for values sharing one route: each chain
/// begins with its value's leader link. `None` means the leader did not
/// answer for some value (unread, the put refused, or no record returned
/// for it) and the write waits for it. `put` is the leader's answer to the
/// one put of the values it lacked; it is not read when it lacked none.
pub fn leader_reports(holds: Vec<LeaderHolds>, put: Result<Vec<ArrivalRecord>, String>) -> (r: Option<Vec<WriteReport>>)
    ensures
        (exists|i: int| 0 <= i < holds@.len() && (#[trigger] holds@[i]) is Nothing) ==> match put {
            Err(_) => r is None,
            Ok(records) => (r is Some <==> leader_gave_links(holds@, records@)) && (r matches Some(reports) ==> (
            reports@.len() == holds@.len() && forall|i: int| 0 <= i < holds@.len() ==> slots_view(
                (#[trigger] reports@[i]).slots@,
            ) == seq![spec_leader_link(holds@, records@, i)])),
        },
        (forall|i: int| 0 <= i < holds@.len() ==> !((#[trigger] holds@[i]) is Nothing)) ==> ((r is Some
            <==> leader_gave_links(holds@, Seq::empty())) && (r matches Some(reports) ==> (reports@.len()
            == holds@.len() && forall|i: int| 0 <= i < holds@.len() ==> slots_view(
            (#[trigger] reports@[i]).slots@,
        ) == seq![spec_leader_link(holds@, Seq::<ArrivalRecord>::empty(), i)]))),
{
    let ghost all = holds@;
    let ghost put_g = put;
    let mut any_nothing = false;
    let mut k: usize = 0;
    while k < holds.len()
        invariant
            all == holds@,
            put_g == put,
            k <= holds@.len(),
            any_nothing <==> exists|i: int| 0 <= i < k && (#[trigger] holds@[i]) is Nothing,
        decreases holds@.len() - k,
    {
        if let LeaderHolds::Nothing = &holds[k] {
            any_nothing = true;
        }
        k = k + 1;
    }
    let mut records: Vec<ArrivalRecord> = if any_nothing {
        match put {
            Ok(v) => v,
            Err(_) => return None,
        }
    } else {
        Vec::new()
    };
    let ghost recs = records@;
    proof {
        if any_nothing {
            assert(put_g matches Ok(v) && v@ == recs);
        } else {
            assert(recs == Seq::<ArrivalRecord>::empty());
        }
    }
    let n = holds.len();
    let mut rest = holds;
    let mut out: Vec<WriteReport> = Vec::new();
    let mut i: usize = 0;
    let mut used: usize = 0;
    while rest.len() > 0
        invariant
            rest@ == all.subrange(i as int, all.len() as int),
            i <= all.len(),
            n == all.len(),
            all == holds@,
            put_g == put,
            any_nothing <==> exists|k: int| 0 <= k < all.len() && (#[trigger] all[k]) is Nothing,
            any_nothing ==> (put_g matches Ok(v) && v@ == recs),
            !any_nothing ==> recs == Seq::<ArrivalRecord>::empty(),
            used == nothing_rank(all, i as int),
            used <= i,
            used <= recs.len() ==> records@ == recs.subrange(used as int, recs.len() as int),
            used > recs.len() ==> records@.len() == 0,
            out@.len() == i,
            forall|k: int| 0 <= k < i ==> spec_leader_link(all, recs, k) is Some,
            forall|k: int| 0 <= k < i ==> slots_view((#[trigger] out@[k]).slots@) == seq![spec_leader_link(all, recs, k)],
        decreases rest@.len(),
    {
        let h = rest.remove(0);
        proof {
            assert(h == all[i as int]);
            assert(rest@ =~= all.subrange(i + 1, all.len() as int));
        }
        let link: ArrivalRecord = match h {
            LeaderHolds::Record(rec) => rec,
            LeaderHolds::Nothing => {
                if records.len() == 0 {
                    proof {
                        assert(spec_leader_link(all, recs, i as int) is None);
                        assert(!leader_gave_links(all, recs));
                    }
                    return None;
                }
                let rec = records.remove(0);
                proof {
                    assert(records@ =~= recs.subrange(used + 1, recs.len() as int));
                }
                used = used + 1;
                rec
            },
            LeaderHolds::Unread => {
                proof {
                    assert(spec_leader_link(all, recs, i as int) is None);
                    assert(!leader_gave_links(all, recs));
                }
                return None;
            },
        };
        let mut slots: Vec<ChainSlot> = Vec::new();
        slots.push(ChainSlot::Link(link));
        proof {
            assert(slots_view(slots@) =~= seq![spec_leader_link(all, recs, i as int)]);
        }
        out.push(WriteReport { slots });
        i = i + 1;
    }
    Some(out)
}

/// Append to each chain's report the slot its seat gave, chain by chain;
/// slots beyond the reports, or reports beyond the slots, are left alone.
pub fn append_slots(reports: Vec<WriteReport>, slots: Vec<ChainSlot>) -> (r: Vec<WriteReport>)
    ensures
        r@.len() == reports@.len(),
        forall|i: int| 0 <= i < r@.len() && i < slots@.len() ==> slots_view((#[trigger] r@[i]).slots@) == slots_view(
            reports@[i].slots@,
        ).push(slot_view(slots@[i])),
        forall|i: int| 0 <= i < r@.len() && i >= slots@.len() ==> slots_view((#[trigger] r@[i]).slots@) == slots_view(
            reports@[i].slots@,
        ),
{
    let ghost all = reports@;
    let ghost given = slots@;
    let n = reports.len();
    let mut reports = reports;
    let mut slots = slots;
    let mut out: Vec<WriteReport> = Vec::new();
    let mut i: usize = 0;
    while reports.len() > 0
        invariant
            reports@ == all.subrange(i as int, all.len() as int),
            i <= all.len(),
            n == all.len(),
            i <= given.len() ==> slots@ == given.subrange(i as int, given.len() as int),
            i > given.len() ==> slots@.len() == 0,
            out@.len() == i,
            forall|k: int| 0 <= k < i && k < given.len() ==> slots_view((#[trigger] out@[k]).slots@) == slots_view(
                all[k].slots@,
            ).push(slot_view(given[k])),
            forall|k: int| 0 <= k < i && k >= given.len() ==> slots_view((#[trigger] out@[k]).slots@) == slots_view(
                all[k].slots@,
            ),
        decreases reports@.len(),
    {
        let mut rep = reports.remove(0);
        proof {
            assert(rep == all[i as int]);
            assert(reports@ =~= all.subrange(i + 1, all.len() as int));
        }
        if slots.len() > 0 {
            let slot = slots.remove(0);
            proof {
                assert(slot == given[i as int]);
                assert(slots@ =~= given.subrange(i + 1, given.len() as int));
            }
            let ghost before = rep.slots@;
            rep.slots.push(slot);
            proof {
                assert(slots_view(rep.slots@) =~= slots_view(before).push(slot_view(given[i as int])));
            }
        }
        out.push(rep);
        i = i + 1;
    }
    out
}

/// A member's ByteCommit: its commitment to everything that arrived at it up
/// to a cycle.
#[derive(Debug)]
pub struct ByteCommit {
    pub member_id: Vec<u8>,
    pub cycle_index: u64,
    pub smt_root: [u8; 32],
    pub bytes_used: u64,
    pub parent_digest: [u8; 32],
}

/// The content of a ByteCommit, by value.
pub open spec fn commit_view(c: ByteCommit) -> (Seq<u8>, u64, [u8; 32], u64, [u8; 32]) {
    (c.member_id@, c.cycle_index, c.smt_root, c.bytes_used, c.parent_digest)
}

/// Every ByteCommit the mirrors hold, mirror by mirror.
pub open spec fn all_held(held: Seq<Vec<ByteCommit>>) -> Seq<ByteCommit>
    decreases held.len(),
{
    if held.len() == 0 {
        Seq::empty()
    } else {
        all_held(held.drop_last()) + held.last()@
    }
}

/// The one ByteCommit of `member` at `cycle` the mirrors hold: none when they
/// hold none, when one of them is another member's or cycle's, or when two
/// of them differ (the member equivocated); otherwise that one.
pub open spec fn spec_agreed(member: Seq<u8>, cycle: u64, held: Seq<Vec<ByteCommit>>) -> Option<
    (Seq<u8>, u64, [u8; 32], u64, [u8; 32]),
> {
    let all = all_held(held);
    if all.len() == 0 {
        None
    } else if exists|i: int| 0 <= i < all.len() && ((#[trigger] all[i]).member_id@ != member || all[i].cycle_index != cycle) {
        None
    } else if exists|i: int, j: int| 0 <= i < all.len() && 0 <= j < all.len() && commit_view(#[trigger] all[i]) != commit_view(#[trigger] all[j]) {
        None
    } else {
        Some(commit_view(all[0]))
    }
}

fn copy_commit(c: &ByteCommit) -> (r: ByteCommit)
    ensures
        commit_view(r) == commit_view(*c),
{
    ByteCommit {
        member_id: copy_bytes(c.member_id.as_slice()),
        cycle_index: c.cycle_index,
        smt_root: c.smt_root,
        bytes_used: c.bytes_used,
        parent_digest: c.parent_digest,
    }
}

fn same_commit(a: &ByteCommit, b: &ByteCommit) -> (r: bool)
    ensures
        r == (commit_view(*a) == commit_view(*b)),
{
    let r = bytes_eq(a.member_id.as_slice(), b.member_id.as_slice()) && a.cycle_index == b.cycle_index
        && bytes_eq(a.smt_root.as_slice(), b.smt_root.as_slice()) && a.bytes_used == b.bytes_used && bytes_eq(
        a.parent_digest.as_slice(),
        b.parent_digest.as_slice(),
    );
    proof {
        if a.smt_root@ == b.smt_root@ {
            assert(a.smt_root =~= b.smt_root);
        }
        if a.parent_digest@ == b.parent_digest@ {
            assert(a.parent_digest =~= b.parent_digest);
        }
    }
    r
}

proof fn lemma_all_held_push(held: Seq<Vec<ByteCommit>>, v: Vec<ByteCommit>)
    ensures
        all_held(held.push(v)) == all_held(held) + v@,
{
    assert(held.push(v).drop_last() =~= held);
}

/// The one ByteCommit of `member` at `cycle` that the mirrors hold, or none
/// when they hold none or show the member equivocating.
pub fn agreed(member: &[u8], cycle: u64, held: &[Vec<ByteCommit>]) -> (r: Option<ByteCommit>)
    ensures
        match r {
            Some(c) => spec_agreed(member@, cycle, held@) == Some(commit_view(c)),
            None => spec_agreed(member@, cycle, held@) is None,
        },
{
    let mut found: Option<usize> = None;
    let mut found_commit: Option<&ByteCommit> = None;
    let ghost mut seen: Seq<ByteCommit> = Seq::empty();
    let mut m: usize = 0;
    while m < held.len()
        invariant
            m <= held@.len(),
            seen == all_held(held@.subrange(0, m as int)),
            forall|i: int| 0 <= i < seen.len() ==> (#[trigger] seen[i]).member_id@ == member@ && seen[i].cycle_index == cycle,
            forall|i: int| 0 <= i < seen.len() ==> commit_view(#[trigger] seen[i]) == commit_view(seen[0]),
            found_commit is None <==> seen.len() == 0,
            found_commit matches Some(c) ==> commit_view(*c) == commit_view(seen[0]),
        decreases held@.len() - m,
    {
        let v = &held[m];
        let ghost before = seen;
        let mut k: usize = 0;
        while k < v.len()
            invariant
                k <= v@.len(),
                m < held@.len(),
                seen == before + v@.subrange(0, k as int),
                forall|i: int| 0 <= i < seen.len() ==> (#[trigger] seen[i]).member_id@ == member@ && seen[i].cycle_index == cycle,
                forall|i: int| 0 <= i < seen.len() ==> commit_view(#[trigger] seen[i]) == commit_view(seen[0]),
                found_commit is None <==> seen.len() == 0,
                found_commit matches Some(c) ==> commit_view(*c) == commit_view(seen[0]),
                before == all_held(held@.subrange(0, m as int)),
                v == held@[m as int],
            decreases v@.len() - k,
        {
            let c = &v[k];
            if !bytes_eq(c.member_id.as_slice(), member) || c.cycle_index != cycle {
                proof {
                    lemma_all_held_push(held@.subrange(0, m as int), held@[m as int]);
                    assert(held@.subrange(0, m + 1) =~= held@.subrange(0, m as int).push(held@[m as int]));
                    lemma_all_held_prefix(held@, m + 1);
                    let all = all_held(held@);
                    let idx = before.len() + k;
                    assert(all[idx] == c);
                }
                return None;
            }
            match found_commit {
                Some(f) => {
                    if !same_commit(f, c) {
                        proof {
                            assert(held@.subrange(0, m + 1) =~= held@.subrange(0, m as int).push(held@[m as int]));
                            lemma_all_held_push(held@.subrange(0, m as int), held@[m as int]);
                            lemma_all_held_prefix(held@, m + 1);
                            let all = all_held(held@);
                            assert(all[0] == seen[0]);
                            assert(all[before.len() + k] == *c);
                            assert(commit_view(all[0]) != commit_view(all[before.len() + k]));
                        }
                        return None;
                    }
                },
                None => {
                    found_commit = Some(c);
                },
            }
            proof {
                seen = seen.push(*c);
                assert(seen =~= before + v@.subrange(0, k + 1));
            }
            k = k + 1;
        }
        proof {
            assert(v@.subrange(0, v@.len() as int) =~= v@);
            assert(held@.subrange(0, m + 1) =~= held@.subrange(0, m as int).push(held@[m as int]));
            lemma_all_held_push(held@.subrange(0, m as int), held@[m as int]);
        }
        m = m + 1;
    }
    proof {
        assert(held@.subrange(0, held@.len() as int) =~= held@);
    }
    match found_commit {
        Some(c) => Some(copy_commit(c)),
        None => None,
    }
}

proof fn lemma_all_held_prefix(held: Seq<Vec<ByteCommit>>, n: int)
    requires
        0 <= n <= held.len(),
    ensures
        all_held(held).len() >= all_held(held.subrange(0, n)).len(),
        forall|i: int| 0 <= i < all_held(held.subrange(0, n)).len() ==> #[trigger] all_held(held)[i] == all_held(
            held.subrange(0, n),
        )[i],
    decreases held.len() - n,
{
    if n < held.len() {
        lemma_all_held_prefix(held, n + 1);
        assert(held.subrange(0, n + 1) =~= held.subrange(0, n).push(held[n]));
        lemma_all_held_push(held.subrange(0, n), held[n]);
    } else {
        assert(held.subrange(0, n) =~= held);
    }
}

/// Whether a seat's answer holds anything, so it is asked to close a cycle.
pub fn holds_any(held: &Option<Vec<Vec<u8>>>) -> (r: bool)
    ensures
        r == (held matches Some(v) && v@.len() > 0),
{
    match held {
        Some(v) => v.len() > 0,
        None => false,
    }
}

/// Whether any seat closed a cycle, so every member syncs its mirror once.
pub fn any_cycle_closed(cycles: &[Option<u64>]) -> (r: bool)
    ensures
        r == exists|i: int| 0 <= i < cycles@.len() && (#[trigger] cycles@[i]) is Some,
{
    let mut i: usize = 0;
    while i < cycles.len()
        invariant
            i <= cycles@.len(),
            forall|k: int| 0 <= k < i ==> (#[trigger] cycles@[k]) is None,
        decreases cycles@.len() - i,
    {
        if cycles[i].is_some() {
            return true;
        }
        i = i + 1;
    }
    false
}

/// The cycle of the leader a later seat is asked about: the leader's latest
/// cycle, for a seat after the leader that closed one itself.
pub fn leader_view(position: usize, cycle: Option<u64>, leader_cycle: Option<u64>) -> (r: Option<u64>)
    ensures
        r == if position > 0 && cycle is Some { leader_cycle } else { None::<u64> },
{
    if position > 0 && cycle.is_some() {
        leader_cycle
    } else {
        None
    }
}

/// The cycle whose ByteCommit is the parent of the one at `cycle`: the one
/// before it, when that is a cycle; the first cycle's parent is zero.
pub fn parent_cycle(cycle: u64) -> (r: Option<u64>)
    ensures
        r == if cycle >= 2 { Some((cycle - 1) as u64) } else { None::<u64> },
{
    if cycle >= 2 {
        Some(cycle - 1)
    } else {
        None
    }
}

/// The members other than `seat`, in order: the mirrors asked for its state.
pub open spec fn spec_others(members: Seq<Vec<u8>>, seat: Seq<u8>) -> Seq<Seq<u8>>
    decreases members.len(),
{
    if members.len() == 0 {
        Seq::empty()
    } else {
        let before = spec_others(members.drop_last(), seat);
        if members.last()@ == seat {
            before
        } else {
            before.push(members.last()@)
        }
    }
}

/// The members other than `seat`, in order.
pub fn others_of(members: &[Vec<u8>], seat: &[u8]) -> (r: Vec<Vec<u8>>)
    ensures
        r@.map_values(|m: Vec<u8>| m@) == spec_others(members@, seat@),
{
    let mut out: Vec<Vec<u8>> = Vec::new();
    let mut i: usize = 0;
    while i < members.len()
        invariant
            i <= members@.len(),
            out@.map_values(|m: Vec<u8>| m@) == spec_others(members@.subrange(0, i as int), seat@),
        decreases members@.len() - i,
    {
        proof {
            let sub = members@.subrange(0, i + 1);
            assert(sub.drop_last() =~= members@.subrange(0, i as int));
            assert(sub.last() == members@[i as int]);
        }
        if !bytes_eq(members[i].as_slice(), seat) {
            let ghost before = out@;
            out.push(copy_bytes(members[i].as_slice()));
            proof {
                assert(out@.map_values(|m: Vec<u8>| m@) =~= before.map_values(|m: Vec<u8>| m@).push(members@[i as int]@));
            }
        }
        i = i + 1;
    }
    assert(members@.subrange(0, members@.len() as int) =~= members@);
    out
}

/// The text of bytes read as UTF-8, each invalid sequence shown as the
/// replacement character.
pub uninterp spec fn utf8_lossy(b: Seq<u8>) -> Seq<char>;

/// std's `String::from_utf8_lossy`, owned.
#[verifier::external_body]
fn lossy_text(b: &[u8]) -> (r: String)
    ensures
        r@ == utf8_lossy(b@),
{
    String::from_utf8_lossy(b).into_owned()
}

/// The members of a committed set, by member id, in the set's order.
#[derive(Debug)]
pub struct NodeSeats {
    members: Vec<Vec<u8>>,
}

impl NodeSeats {
    pub closed spec fn member_ids(&self) -> Seq<Seq<u8>> {
        self.members@.map_values(|m: Vec<u8>| m@)
    }

    /// The seats of a set with these members.
    pub fn new(members: Vec<Vec<u8>>) -> (r: Self)
        ensures
            r.member_ids() == members@.map_values(|m: Vec<u8>| m@),
    {
        NodeSeats { members }
    }

    /// Every member of the set, by member id.
    pub fn members(&self) -> (r: Vec<Vec<u8>>)
        ensures
            r@.map_values(|m: Vec<u8>| m@) == self.member_ids(),
    {
        let mut out: Vec<Vec<u8>> = Vec::new();
        let mut i: usize = 0;
        while i < self.members.len()
            invariant
                i <= self.members@.len(),
                out@.len() == i,
                forall|k: int| 0 <= k < i ==> (#[trigger] out@[k])@ == self.members@[k]@,
            decreases self.members@.len() - i,
        {
            out.push(copy_bytes(self.members[i].as_slice()));
            i = i + 1;
        }
        assert(out@.map_values(|m: Vec<u8>| m@) =~= self.member_ids());
        out
    }

    /// The index of `member` in the set, or why it cannot be reached.
    pub fn member(&self, member: &[u8]) -> (r: Result<usize, String>)
        ensures
            r matches Ok(i) ==> i < self.member_ids().len() && self.member_ids()[i as int] == member@,
            r is Err <==> !self.member_ids().contains(member@),
            r matches Err(m) ==> m@ == utf8_lossy(member@) + " is not a member of the set"@,
    {
        let mut i: usize = 0;
        while i < self.members.len()
            invariant
                i <= self.members@.len(),
                forall|k: int| 0 <= k < i ==> (#[trigger] self.members@[k])@ != member@,
            decreases self.members@.len() - i,
        {
            if bytes_eq(self.members[i].as_slice(), member) {
                proof {
                    assert(self.member_ids()[i as int] == member@);
                }
                return Ok(i);
            }
            i = i + 1;
        }
        proof {
            assert forall|k: int| 0 <= k < self.member_ids().len() implies #[trigger] self.member_ids()[k] != member@ by {
                assert(self.member_ids()[k] == self.members@[k]@);
            }
        }
        let mut m = lossy_text(member);
        m.append(" is not a member of the set");
        Err(m)
    }
}

} // verus!
