//! The iterative lookup: ask the closest known peers for peers that are
//! closer still, round after round, until a round finds nothing closer or
//! the bound on rounds is reached.
//!
//! The lookup decides; the node's driver does the asking and hands the
//! answers back.

use crate::addr::{clone_contacts, contact_views, Contact};
use crate::peer::{
    contains_peer, distance, theorem_distance_injective, peer_views, Distance, PeerId,
};
use crate::routing::floor_view;
use vstd::prelude::*;

verus! {

/// Whether `cands[i]` is the first contact of its peer in `cands`.
pub open spec fn first_occurrence(cands: Seq<(Seq<u8>, Seq<u8>)>, i: int) -> bool {
    &&& 0 <= i < cands.len()
    &&& forall|k: int| 0 <= k < i ==> (#[trigger] cands[k]).0 != cands[i].0
}

/// Whether `c` is a contact of `cands` that a selection may take: the
/// first of its peer, and not of the excluded peer.
pub open spec fn taken_from(
    cands: Seq<(Seq<u8>, Seq<u8>)>,
    exclude: Seq<u8>,
    c: (Seq<u8>, Seq<u8>),
) -> bool {
    &&& c.0 != exclude
    &&& exists|i: int| first_occurrence(cands, i) && #[trigger] cands[i] == c
}

/// Whether `peer` is the peer of one of `contacts`.
pub open spec fn has_peer(contacts: Seq<(Seq<u8>, Seq<u8>)>, peer: Seq<u8>) -> bool {
    exists|k: int| 0 <= k < contacts.len() && (#[trigger] contacts[k]).0 == peer
}

/// The peers of a sequence of contacts.
pub open spec fn peers_of(contacts: Seq<(Seq<u8>, Seq<u8>)>) -> Seq<Seq<u8>> {
    Seq::new(contacts.len(), |k: int| contacts[k].0)
}

/// Whether `res` holds the `limit` peers of `cands` that are closest to
/// `target`, the peer `exclude` left aside: each peer once, by its first
/// contact, in strictly ascending distance, and no peer left out that is as
/// close as one that was taken.
pub open spec fn is_closest_of(
    cands: Seq<(Seq<u8>, Seq<u8>)>,
    target: Seq<u8>,
    exclude: Seq<u8>,
    limit: nat,
    res: Seq<(Seq<u8>, Seq<u8>)>,
) -> bool {
    &&& res.len() <= limit
    &&& forall|k: int| 0 <= k < res.len() ==> taken_from(cands, exclude, #[trigger] res[k])
    &&& forall|k: int, l: int|
        0 <= k < l < res.len() ==> distance((#[trigger] res[k]).0, target) < distance(
            (#[trigger] res[l]).0,
            target,
        )
    &&& forall|i: int|
        0 <= i < cands.len() && (#[trigger] cands[i]).0 != exclude ==> has_peer(res, cands[i].0)
            || (res.len() == limit && (limit == 0 || distance(res.last().0, target) < distance(
            cands[i].0,
            target,
        )))
}

/// Whether `cands[i]` is a contact that a selection may still take once it
/// has reached the distance `floor`.
pub open spec fn open_contact(
    cands: Seq<(Seq<u8>, Seq<u8>)>,
    target: Seq<u8>,
    exclude: Seq<u8>,
    floor: Option<nat>,
    i: int,
) -> bool {
    &&& 0 <= i < cands.len()
    &&& cands[i].0 != exclude
    &&& (floor matches Some(f) ==> f < distance(cands[i].0, target))
}

/// The `limit` peers of `cands` that are closest to `target`, the peer
/// `exclude` left aside: the one sequence that `is_closest_of` describes.
pub open spec fn closest_contacts(
    cands: Seq<(Seq<u8>, Seq<u8>)>,
    target: Seq<u8>,
    exclude: Seq<u8>,
    limit: nat,
) -> Seq<(Seq<u8>, Seq<u8>)> {
    choose|res: Seq<(Seq<u8>, Seq<u8>)>| is_closest_of(cands, target, exclude, limit, res)
}

/// Two selections agree on every position that both have.
proof fn lemma_closest_of_prefix(
    cands: Seq<(Seq<u8>, Seq<u8>)>,
    target: Seq<u8>,
    exclude: Seq<u8>,
    limit: nat,
    r1: Seq<(Seq<u8>, Seq<u8>)>,
    r2: Seq<(Seq<u8>, Seq<u8>)>,
    n: int,
)
    requires
        is_closest_of(cands, target, exclude, limit, r1),
        is_closest_of(cands, target, exclude, limit, r2),
        0 <= n <= r1.len(),
        n <= r2.len(),
    ensures
        forall|k: int| 0 <= k < n ==> r1[k] == r2[k],
    decreases n,
{
    if n > 0 {
        lemma_closest_of_prefix(cands, target, exclude, limit, r1, r2, n - 1);
    }
}

/// A selection is not shorter than another selection from the same
/// contacts.
proof fn lemma_closest_of_not_shorter(
    cands: Seq<(Seq<u8>, Seq<u8>)>,
    target: Seq<u8>,
    exclude: Seq<u8>,
    limit: nat,
    r1: Seq<(Seq<u8>, Seq<u8>)>,
    r2: Seq<(Seq<u8>, Seq<u8>)>,
)
    requires
        is_closest_of(cands, target, exclude, limit, r1),
        is_closest_of(cands, target, exclude, limit, r2),
    ensures
        r1.len() >= r2.len(),
{
    if r1.len() < r2.len() {
        let n = r1.len() as int;
        lemma_closest_of_prefix(cands, target, exclude, limit, r1, r2, n);
        let i = choose|i: int| first_occurrence(cands, i) && #[trigger] cands[i] == r2[n];
    }
}

/// The closest peers of a list of contacts are determined: `is_closest_of`
/// describes one sequence and no other.
pub proof fn theorem_closest_of_unique(
    cands: Seq<(Seq<u8>, Seq<u8>)>,
    target: Seq<u8>,
    exclude: Seq<u8>,
    limit: nat,
    r1: Seq<(Seq<u8>, Seq<u8>)>,
    r2: Seq<(Seq<u8>, Seq<u8>)>,
)
    requires
        is_closest_of(cands, target, exclude, limit, r1),
        is_closest_of(cands, target, exclude, limit, r2),
    ensures
        r1 == r2,
        r1 == closest_contacts(cands, target, exclude, limit),
{
    lemma_closest_of_not_shorter(cands, target, exclude, limit, r1, r2);
    lemma_closest_of_not_shorter(cands, target, exclude, limit, r2, r1);
    lemma_closest_of_prefix(cands, target, exclude, limit, r1, r2, r1.len() as int);
    let c = closest_contacts(cands, target, exclude, limit);
    lemma_closest_of_not_shorter(cands, target, exclude, limit, r1, c);
    lemma_closest_of_not_shorter(cands, target, exclude, limit, c, r1);
    lemma_closest_of_prefix(cands, target, exclude, limit, r1, c, r1.len() as int);
}

/// The position of the contact closest to `target` among those that are
/// farther from it than `floor`; of several contacts of that peer, the
/// first.
fn next_contact(
    cands: &Vec<Contact>,
    target: &PeerId,
    exclude: &PeerId,
    floor: &Option<Distance>,
) -> (r: Option<usize>)
    ensures
        match r {
            Some(i) => {
                &&& open_contact(
                    contact_views(cands@),
                    target@,
                    exclude@,
                    floor_view(*floor),
                    i as int,
                )
                &&& forall|i2: int|
                    open_contact(contact_views(cands@), target@, exclude@, floor_view(*floor), i2)
                        ==> distance(contact_views(cands@)[i as int].0, target@) <= distance(
                        (#[trigger] contact_views(cands@)[i2]).0,
                        target@,
                    )
                &&& forall|i2: int|
                    0 <= i2 < i && open_contact(
                        contact_views(cands@),
                        target@,
                        exclude@,
                        floor_view(*floor),
                        i2,
                    ) ==> distance(contact_views(cands@)[i as int].0, target@) < distance(
                        (#[trigger] contact_views(cands@)[i2]).0,
                        target@,
                    )
            },
            None => forall|i2: int|
                !#[trigger] open_contact(
                    contact_views(cands@),
                    target@,
                    exclude@,
                    floor_view(*floor),
                    i2,
                ),
        },
{
    let ghost cv = contact_views(cands@);
    let ghost fl = floor_view(*floor);
    let mut best: Option<usize> = None;
    let mut best_d: Distance = Distance { bytes: [0u8; 32] };
    let mut i: usize = 0;
    while i < cands.len()
        invariant
            i <= cands.len(),
            cv == contact_views(cands@),
            fl == floor_view(*floor),
            best matches Some(b) ==> b < i && open_contact(cv, target@, exclude@, fl, b as int)
                && best_d@ == distance(cv[b as int].0, target@),
            forall|i2: int|
                0 <= i2 < i && open_contact(cv, target@, exclude@, fl, i2) ==> best is Some
                    && best_d@ <= distance((#[trigger] cv[i2]).0, target@),
            forall|i2: int|
                0 <= i2 < i && open_contact(cv, target@, exclude@, fl, i2) && best is Some && i2
                    < best->0 ==> best_d@ < distance((#[trigger] cv[i2]).0, target@),
        decreases cands.len() - i,
    {
        if !cands[i].peer.same(exclude) {
            let d = cands[i].peer.distance(target);
            let above = match floor {
                Some(f) => f.less_than(&d),
                None => true,
            };
            if above {
                let better = match best {
                    Some(_) => d.less_than(&best_d),
                    None => true,
                };
                if better {
                    best = Some(i);
                    best_d = d;
                }
            }
        }
        i += 1;
    }
    best
}

/// The `limit` peers among `cands` that are closest to `target`, the peer
/// `exclude` left aside, in ascending distance.
pub fn select_closest(
    cands: &Vec<Contact>,
    target: &PeerId,
    exclude: &PeerId,
    limit: usize,
) -> (res: Vec<Contact>)
    ensures
        is_closest_of(contact_views(cands@), target@, exclude@, limit as nat, contact_views(res@)),
        contact_views(res@) == closest_contacts(
            contact_views(cands@),
            target@,
            exclude@,
            limit as nat,
        ),
{
    let ghost cv = contact_views(cands@);
    let mut res: Vec<Contact> = Vec::new();
    let mut floor: Option<Distance> = None;
    let mut done = false;
    while !done && res.len() < limit
        invariant
            cv == contact_views(cands@),
            res.len() <= limit,
            floor is None <==> res.len() == 0,
            floor matches Some(d) ==> d@ == distance(contact_views(res@).last().0, target@),
            forall|k: int|
                0 <= k < res.len() ==> taken_from(cv, exclude@, #[trigger] contact_views(res@)[k]),
            forall|k: int, l: int|
                0 <= k < l < res.len() ==> distance(
                    (#[trigger] contact_views(res@)[k]).0,
                    target@,
                ) < distance((#[trigger] contact_views(res@)[l]).0, target@),
            forall|i: int|
                0 <= i < cv.len() && (#[trigger] cv[i]).0 != exclude@ && !open_contact(
                    cv,
                    target@,
                    exclude@,
                    floor_view(floor),
                    i,
                ) ==> has_peer(contact_views(res@), cv[i].0),
            done ==> forall|i: int|
                !#[trigger] open_contact(cv, target@, exclude@, floor_view(floor), i),
        decreases (if done { 0int } else { 1int }), limit - res.len(),
    {
        match next_contact(cands, target, exclude, &floor) {
            None => {
                done = true;
            },
            Some(b) => {
                let ghost old_views = contact_views(res@);
                let ghost old_floor = floor_view(floor);
                let copy = cands[b].clone();
                let d = copy.peer.distance(target);
                let ghost m = cv[b as int];
                res.push(copy);
                floor = Some(d);
                assert(contact_views(res@) =~= old_views.push(m));
                assert forall|i: int|
                    0 <= i < cv.len() && (#[trigger] cv[i]).0 != exclude@ && !open_contact(
                        cv,
                        target@,
                        exclude@,
                        floor_view(floor),
                        i,
                    ) implies has_peer(contact_views(res@), cv[i].0) by {
                    if open_contact(cv, target@, exclude@, old_floor, i) {
                        theorem_distance_injective(cv[i].0, m.0, target@);
                        assert(contact_views(res@)[res.len() - 1].0 == cv[i].0);
                    } else {
                        let k = choose|k: int|
                            0 <= k < old_views.len() && (#[trigger] old_views[k]).0 == cv[i].0;
                        assert(contact_views(res@)[k].0 == cv[i].0);
                    }
                }
            },
        }
    }
    proof {
        let out = contact_views(res@);
        theorem_closest_of_unique(cv, target@, exclude@, limit as nat, out, out);
    }
    res
}

/// A lookup as a mathematical value.
#[verifier::ext_equal]
pub struct LookupView {
    /// The identifier that is looked for.
    pub target: Seq<u8>,
    /// The local identifier, which is never asked and never returned.
    pub local: Seq<u8>,
    /// How many of the closest peers the lookup keeps.
    pub width: nat,
    /// The bound on rounds.
    pub max_rounds: nat,
    /// Number of rounds that are complete.
    pub rounds: nat,
    /// The closest peers known so far, in ascending distance.
    pub shortlist: Seq<(Seq<u8>, Seq<u8>)>,
    /// The peers that were asked, in this round or an earlier one.
    pub queried: Seq<Seq<u8>>,
    /// The contacts that were asked in this round and have not answered.
    pub asking: Seq<(Seq<u8>, Seq<u8>)>,
    /// The contacts that the answers of this round have named so far.
    pub gathered: Seq<(Seq<u8>, Seq<u8>)>,
    /// Whether the lookup is over.
    pub finished: bool,
}

/// The invariant of a lookup: one that is over waits for nobody, one that
/// goes on waits for an answer and has rounds left.
pub open spec fn lookup_wf(v: LookupView) -> bool {
    &&& v.finished ==> v.asking.len() == 0 && v.gathered.len() == 0
    &&& !v.finished ==> v.asking.len() > 0 && v.rounds < v.max_rounds
}

/// The contacts of `shortlist` whose peers are not among `queried`, in
/// their order.
pub open spec fn unasked(shortlist: Seq<(Seq<u8>, Seq<u8>)>, queried: Seq<Seq<u8>>) -> Seq<
    (Seq<u8>, Seq<u8>),
>
    decreases shortlist.len(),
{
    if shortlist.len() == 0 {
        Seq::empty()
    } else {
        let rest = unasked(shortlist.drop_last(), queried);
        if queried.contains(shortlist.last().0) {
            rest
        } else {
            rest.push(shortlist.last())
        }
    }
}

/// Whether a round has found a peer closer to `target` than the closest
/// that was known before it.
pub open spec fn found_closer(
    before: Seq<(Seq<u8>, Seq<u8>)>,
    after: Seq<(Seq<u8>, Seq<u8>)>,
    target: Seq<u8>,
) -> bool {
    after.len() > 0 && (before.len() == 0 || distance(after[0].0, target) < distance(
        before[0].0,
        target,
    ))
}

/// The lookup of `target` that starts from the contacts `seeds`. With no
/// seed to ask, or no round allowed, it is over at once.
pub open spec fn started(
    local: Seq<u8>,
    target: Seq<u8>,
    seeds: Seq<(Seq<u8>, Seq<u8>)>,
    width: nat,
    max_rounds: nat,
) -> LookupView {
    let shortlist = closest_contacts(seeds, target, local, width);
    let finished = shortlist.len() == 0 || max_rounds == 0;
    let asking = if finished {
        Seq::empty()
    } else {
        shortlist
    };
    LookupView {
        target,
        local,
        width,
        max_rounds,
        rounds: 0,
        shortlist,
        queried: peers_of(asking),
        asking,
        gathered: Seq::empty(),
        finished,
    }
}

/// The lookup `old` after its round was completed by answers that named
/// the contacts `gathered`. The shortlist becomes the closest of what was
/// known and what was named. The lookup is over when the bound on rounds is
/// reached, when the round found no closer peer, or when every peer of the
/// shortlist was asked; else the peers not yet asked are asked next.
pub open spec fn round_done(old: LookupView, gathered: Seq<(Seq<u8>, Seq<u8>)>) -> LookupView {
    let shortlist = closest_contacts(old.shortlist + gathered, old.target, old.local, old.width);
    let rounds = old.rounds + 1;
    let finished = rounds >= old.max_rounds || !found_closer(old.shortlist, shortlist, old.target)
        || unasked(shortlist, old.queried).len() == 0;
    let asking = if finished {
        Seq::empty()
    } else {
        unasked(shortlist, old.queried)
    };
    LookupView {
        rounds,
        shortlist,
        queried: old.queried + peers_of(asking),
        asking,
        gathered: Seq::empty(),
        finished,
        ..old
    }
}

/// The position of the first contact of `peer` among `asking`.
pub open spec fn asked_index(asking: Seq<(Seq<u8>, Seq<u8>)>, peer: Seq<u8>) -> int {
    choose|i: int| first_occurrence(asking, i) && (#[trigger] asking[i]).0 == peer
}

/// The lookup `old` after the peer `from` answered and named `contacts`.
/// An answer of a peer that is not asked, or has answered, changes
/// nothing; the last answer of a round completes the round.
pub open spec fn answered(
    old: LookupView,
    from: Seq<u8>,
    contacts: Seq<(Seq<u8>, Seq<u8>)>,
) -> LookupView {
    if old.finished || !has_peer(old.asking, from) {
        old
    } else if old.asking.len() > 1 {
        LookupView {
            asking: old.asking.remove(asked_index(old.asking, from)),
            gathered: old.gathered + contacts,
            ..old
        }
    } else {
        round_done(old, old.gathered + contacts)
    }
}

/// What an answer of the peer `from` that named `contacts` does to the
/// lookup `old`.
pub open spec fn progress_of(
    old: LookupView,
    from: Seq<u8>,
    contacts: Seq<(Seq<u8>, Seq<u8>)>,
) -> Progress {
    if old.finished || !has_peer(old.asking, from) {
        Progress::Ignored
    } else if old.asking.len() > 1 {
        Progress::Waiting
    } else if answered(old, from, contacts).finished {
        Progress::Finished
    } else {
        Progress::NextRound
    }
}

/// The lookup `v` cut short.
pub open spec fn after_expiry(v: LookupView) -> LookupView {
    LookupView { finished: true, asking: Seq::empty(), gathered: Seq::empty(), ..v }
}

/// What an answer did to a lookup.
#[derive(Clone, Copy, Debug, PartialEq, Eq, Structural)]
pub enum Progress {
    /// The lookup did not wait for an answer of this peer.
    Ignored,
    /// The round waits for more answers.
    Waiting,
    /// The round is complete and the next one has begun.
    NextRound,
    /// The lookup is over.
    Finished,
}

/// An iterative lookup of the peers closest to a target.
pub struct Lookup {
    target: PeerId,
    local: PeerId,
    width: usize,
    max_rounds: usize,
    rounds: usize,
    shortlist: Vec<Contact>,
    queried: Vec<PeerId>,
    asking: Vec<Contact>,
    gathered: Vec<Contact>,
    finished: bool,
}

impl View for Lookup {
    type V = LookupView;

    closed spec fn view(&self) -> LookupView {
        LookupView {
            target: self.target@,
            local: self.local@,
            width: self.width as nat,
            max_rounds: self.max_rounds as nat,
            rounds: self.rounds as nat,
            shortlist: contact_views(self.shortlist@),
            queried: peer_views(self.queried@),
            asking: contact_views(self.asking@),
            gathered: contact_views(self.gathered@),
            finished: self.finished,
        }
    }
}

/// The contacts of `shortlist` whose peers are not among `queried`.
fn select_unasked(shortlist: &Vec<Contact>, queried: &Vec<PeerId>) -> (res: Vec<Contact>)
    ensures
        contact_views(res@) == unasked(contact_views(shortlist@), peer_views(queried@)),
{
    let ghost sv = contact_views(shortlist@);
    let ghost qv = peer_views(queried@);
    let mut res: Vec<Contact> = Vec::new();
    let mut i: usize = 0;
    while i < shortlist.len()
        invariant
            i <= shortlist.len(),
            sv == contact_views(shortlist@),
            qv == peer_views(queried@),
            contact_views(res@) == unasked(sv.take(i as int), qv),
        decreases shortlist.len() - i,
    {
        assert(sv.take(i + 1).drop_last() =~= sv.take(i as int));
        if !contains_peer(queried, &shortlist[i].peer) {
            res.push(shortlist[i].clone());
        }
        i += 1;
    }
    assert(sv.take(i as int) =~= sv);
    res
}

/// The position of the first contact of `peer` among `contacts`.
fn position_of_contact(contacts: &Vec<Contact>, peer: &PeerId) -> (r: Option<usize>)
    ensures
        match r {
            Some(k) => k < contacts.len() && has_peer(contact_views(contacts@), peer@) && k
                == asked_index(contact_views(contacts@), peer@),
            None => !has_peer(contact_views(contacts@), peer@),
        },
{
    let ghost cv = contact_views(contacts@);
    let mut k: usize = 0;
    while k < contacts.len()
        invariant
            k <= contacts.len(),
            cv == contact_views(contacts@),
            forall|l: int| 0 <= l < k ==> (#[trigger] cv[l]).0 != peer@,
        decreases contacts.len() - k,
    {
        assert(cv[k as int].0 == contacts@[k as int].peer@);
        if contacts[k].peer.same(peer) {
            return Some(k);
        }
        k += 1;
    }
    None
}

impl Lookup {
    /// Whether the lookup meets its invariant.
    pub open spec fn wf(&self) -> bool {
        lookup_wf(self@)
    }

    /// Starts the lookup of `target` from the contacts `seeds`, the closest
    /// that the node knows. The lookup keeps the `width` closest peers and
    /// runs for `max_rounds` rounds at most.
    pub fn start(
        local: PeerId,
        target: PeerId,
        seeds: &Vec<Contact>,
        width: usize,
        max_rounds: usize,
    ) -> (lookup: Lookup)
        ensures
            lookup.wf(),
            lookup@ == started(
                local@,
                target@,
                contact_views(seeds@),
                width as nat,
                max_rounds as nat,
            ),
    {
        let shortlist = select_closest(seeds, &target, &local, width);
        let finished = shortlist.len() == 0 || max_rounds == 0;
        let asking = if finished {
            Vec::new()
        } else {
            clone_contacts(&shortlist)
        };
        let mut queried: Vec<PeerId> = Vec::new();
        let mut i: usize = 0;
        while i < asking.len()
            invariant
                i <= asking.len(),
                queried.len() == i,
                forall|k: int| 0 <= k < i ==> queried@[k]@ == asking@[k]@.0,
            decreases asking.len() - i,
        {
            queried.push(asking[i].peer);
            i += 1;
        }
        Lookup {
            target,
            local,
            width,
            max_rounds,
            rounds: 0,
            shortlist,
            queried,
            asking,
            gathered: Vec::new(),
            finished,
        }
    }

    /// The identifier that is looked for.
    pub fn target(&self) -> (target: PeerId)
        ensures
            target@ == self@.target,
    {
        self.target
    }

    /// Whether the lookup is over.
    pub fn is_finished(&self) -> (finished: bool)
        ensures
            finished == self@.finished,
    {
        self.finished
    }

    /// Number of rounds that are complete.
    pub fn rounds(&self) -> (n: usize)
        ensures
            n == self@.rounds,
    {
        self.rounds
    }

    /// Number of answers that the current round still waits for.
    pub fn awaiting(&self) -> (n: usize)
        ensures
            n == self@.asking.len(),
    {
        self.asking.len()
    }

    /// The closest peers known so far, in ascending distance: the result of
    /// the lookup once it is over.
    pub fn closest(&self) -> (contacts: Vec<Contact>)
        ensures
            contact_views(contacts@) == self@.shortlist,
    {
        clone_contacts(&self.shortlist)
    }

    /// The contacts that were asked in the current round and have not
    /// answered.
    pub fn asking(&self) -> (contacts: Vec<Contact>)
        ensures
            contact_views(contacts@) == self@.asking,
    {
        clone_contacts(&self.asking)
    }

    /// Whether the current round waits for an answer of `peer`.
    pub fn is_asking(&self, peer: &PeerId) -> (asked: bool)
        ensures
            asked == has_peer(self@.asking, peer@),
    {
        position_of_contact(&self.asking, peer).is_some()
    }

    /// Takes in the answer of the peer `from`: the contacts that it named,
    /// none where it failed to answer.
    pub fn on_answer(&mut self, from: &PeerId, contacts: Vec<Contact>) -> (progress: Progress)
        requires
            old(self).wf(),
        ensures
            final(self).wf(),
            final(self)@ == answered(old(self)@, from@, contact_views(contacts@)),
            progress == progress_of(old(self)@, from@, contact_views(contacts@)),
    {
        let ghost v = self@;
        let ghost named = contact_views(contacts@);
        let k = match position_of_contact(&self.asking, from) {
            Some(k) => k,
            None => {
                return Progress::Ignored;
            },
        };
        let mut contacts = contacts;
        self.gathered.append(&mut contacts);
        self.asking.remove(k);
        if self.asking.len() > 0 {
            return Progress::Waiting;
        }
        let ghost gathered = v.gathered + named;
        let mut cands = clone_contacts(&self.shortlist);
        cands.append(&mut self.gathered);
        assert(contact_views(cands@) =~= v.shortlist + gathered);
        let shortlist = select_closest(&cands, &self.target, &self.local, self.width);
        let closer = if shortlist.len() == 0 {
            false
        } else if self.shortlist.len() == 0 {
            true
        } else {
            let after = shortlist[0].peer.distance(&self.target);
            let before = self.shortlist[0].peer.distance(&self.target);
            after.less_than(&before)
        };
        let unasked = select_unasked(&shortlist, &self.queried);
        self.rounds += 1;
        self.finished = self.rounds >= self.max_rounds || !closer || unasked.len() == 0;
        self.shortlist = shortlist;
        if self.finished {
            Progress::Finished
        } else {
            let mut queried: Vec<PeerId> = Vec::new();
            std::mem::swap(&mut self.queried, &mut queried);
            let mut i: usize = 0;
            while i < unasked.len()
                invariant
                    i <= unasked.len(),
                    queried.len() == v.queried.len() + i,
                    forall|k: int|
                        0 <= k < v.queried.len() ==> (#[trigger] queried@[k])@ == v.queried[k],
                    forall|k: int|
                        0 <= k < i ==> (#[trigger] queried@[v.queried.len() + k])@
                            == unasked@[k]@.0,
                decreases unasked.len() - i,
            {
                queried.push(unasked[i].peer);
                i += 1;
            }
            self.queried = queried;
            self.asking = unasked;
            assert(self@.queried =~= v.queried + peers_of(self@.asking)) by {
                let lhs = self@.queried;
                let rhs = v.queried + peers_of(self@.asking);
                assert forall|k: int| 0 <= k < lhs.len() implies lhs[k] == rhs[k] by {
                    if k >= v.queried.len() {
                        let d = k - v.queried.len();
                        assert(self.queried@[v.queried.len() + d]@ == self.asking@[d]@.0);
                    }
                }
            }
            Progress::NextRound
        }
    }

    /// Cuts the lookup short, as when its time has run out. What it has
    /// found so far stays as its result.
    pub fn expire(&mut self)
        ensures
            final(self).wf(),
            final(self)@ == after_expiry(old(self)@),
    {
        self.finished = true;
        self.asking = Vec::new();
        self.gathered = Vec::new();
    }
}

} // verus!
