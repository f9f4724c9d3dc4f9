// The patchbay: the selected host, the connections by identity, and whether
// audio runs.

use crate::connection::{
    description_of, sequence_of, Connection, ConnectionMetadata, ConnectionView, MetadataView,
};
use crate::error::{PatchbayError, Refusal};
use crate::identity::{is_random_uuid, uuid_text, ConnectionId};
use crate::stream::{StreamCommand, StreamOp, StreamSide};
use crate::text::bool_text;
use std::collections::HashMap;
use vstd::prelude::*;
use vstd::std_specs::iter::IteratorSpec;
use vstd::string::*;

verus! {

broadcast use vstd::std_specs::hash::group_hash_axioms;

/// The mathematical content of a `Patchbay`.
pub struct PatchbayView {
    pub host: Seq<char>,
    pub connections: Map<u128, ConnectionView>,
    pub running: bool,
}

impl PatchbayView {
    /// What the patchbay asks of a stream to bring a connection in line with
    /// itself: to play while it runs, to pause while it is stopped.
    pub open spec fn op(self) -> StreamOp {
        if self.running {
            StreamOp::Play
        } else {
            StreamOp::Pause
        }
    }

    /// The patchbay with the connection `connection` under `id`.
    pub open spec fn with_connection(self, id: u128, connection: ConnectionView) -> PatchbayView {
        PatchbayView { connections: self.connections.insert(id, connection), ..self }
    }

    /// The patchbay without the connection under `id`.
    pub open spec fn without_connection(self, id: u128) -> PatchbayView {
        PatchbayView { connections: self.connections.remove(id), ..self }
    }

    /// The patchbay after all its connections were asked to start.
    pub open spec fn started(self, refusals: Seq<Refusal>) -> PatchbayView {
        PatchbayView {
            connections: after_all(self.connections, StreamOp::Play, refusals),
            running: true,
            ..self
        }
    }

    /// The patchbay after all its connections were asked to halt.
    pub open spec fn halted(self, refusals: Seq<Refusal>) -> PatchbayView {
        PatchbayView {
            connections: after_all(self.connections, StreamOp::Pause, refusals),
            running: false,
            ..self
        }
    }

    /// Every connection is in the state of the patchbay: running while it
    /// runs, halted while it is stopped.
    pub open spec fn in_step(self) -> bool {
        forall|id: u128| #[trigger]
            self.connections.contains_key(id) ==> if self.running {
                self.connections[id].is_running()
            } else {
                self.connections[id].is_halted()
            }
    }
}

/// What is persisted of a patchbay: the selected host, and of each
/// connection, by identity, where it leads from and to.
pub struct PatchbayState {
    pub host: String,
    pub connections: HashMap<u128, ConnectionMetadata>,
}

/// The mathematical content of a `PatchbayState`.
pub struct StateView {
    pub host: Seq<char>,
    pub connections: Map<u128, MetadataView>,
}

impl View for PatchbayState {
    type V = StateView;

    open spec fn view(&self) -> StateView {
        StateView {
            host: self.host@,
            connections: self.connections@.map_values(|m: ConnectionMetadata| m@),
        }
    }
}

/// What is persisted of a patchbay.
pub open spec fn document_of(patchbay: PatchbayView) -> StateView {
    StateView {
        host: patchbay.host,
        connections: patchbay.connections.map_values(|c: ConnectionView| c.metadata),
    }
}

/// `loaded` holds exactly the connections `rebuilt`, each under its
/// identity and halted, on `host` and stopped.
pub open spec fn holds_rebuilt(
    loaded: PatchbayView,
    host: Seq<char>,
    rebuilt: Seq<(u128, ConnectionView)>,
) -> bool {
    &&& loaded.host == host
    &&& !loaded.running
    &&& forall|i: int|
        0 <= i < rebuilt.len() ==> loaded.connections.contains_key((#[trigger] rebuilt[i]).0)
            && loaded.connections[rebuilt[i].0] == rebuilt[i].1.after(StreamOp::Pause, None)
    &&& forall|id: u128| #[trigger]
        loaded.connections.contains_key(id) ==> exists|i: int|
            0 <= i < rebuilt.len() && (#[trigger] rebuilt[i]).0 == id
}

/// Saving and loading brings back the same host, the same identities and
/// the same metadata, with every connection halted: a patchbay that holds
/// the connections rebuilt from a saved one's document, one for each entry
/// and of that entry's metadata, has the document of the saved one.
pub proof fn lemma_save_load_round_trip(
    saved: PatchbayView,
    rebuilt: Seq<(u128, ConnectionView)>,
    loaded: PatchbayView,
)
    requires
        forall|id: u128| #[trigger]
            saved.connections.contains_key(id) ==> exists|i: int|
                0 <= i < rebuilt.len() && (#[trigger] rebuilt[i]).0 == id,
        forall|i: int|
            0 <= i < rebuilt.len() ==> saved.connections.contains_key((#[trigger] rebuilt[i]).0)
                && rebuilt[i].1.metadata == saved.connections[rebuilt[i].0].metadata,
        holds_rebuilt(loaded, saved.host, rebuilt),
    ensures
        document_of(loaded) == document_of(saved),
        !loaded.running,
        loaded.in_step(),
{
    assert forall|id: u128| loaded.connections.contains_key(id) implies saved.connections.contains_key(
        id,
    ) && loaded.connections[id].metadata == saved.connections[id].metadata
        && loaded.connections[id].is_halted() by {
        let i = choose|i: int| 0 <= i < rebuilt.len() && (#[trigger] rebuilt[i]).0 == id;
        assert(loaded.connections[rebuilt[i].0] == rebuilt[i].1.after(StreamOp::Pause, None));
    }
    assert forall|id: u128| saved.connections.contains_key(id) implies loaded.connections.contains_key(
        id,
    ) by {
        let i = choose|i: int| 0 <= i < rebuilt.len() && (#[trigger] rebuilt[i]).0 == id;
        assert(loaded.connections.contains_key(rebuilt[i].0));
    }
    assert(document_of(loaded).connections =~= document_of(saved).connections);
}

/// The identities and contents of rebuilt connections.
pub open spec fn rebuilt_of(entries: Seq<(ConnectionId, Connection)>) -> Seq<(u128, ConnectionView)> {
    Seq::new(entries.len(), |i: int| (entries[i].0.0, entries[i].1@))
}

/// No two of the entries share an identity.
pub open spec fn distinct_ids(entries: Seq<(ConnectionId, Connection)>) -> bool {
    forall|i: int, j: int|
        0 <= i < j < entries.len() ==> (#[trigger] entries[i]).0 != (#[trigger] entries[j]).0
}

/// What is shown of a patchbay before its connections.
pub open spec fn heading_of(patchbay: PatchbayView) -> Seq<char> {
    "Running: "@ + (if patchbay.running {
        "true"@
    } else {
        "false"@
    }) + "\n--\nHost: "@ + patchbay.host + "\n--\nConnections:\n"@
}

/// The line that shows one connection: its identity, then the connection.
pub open spec fn line_of(id: u128, connection: ConnectionView) -> Seq<char> {
    uuid_text(id) + ": "@ + description_of(connection) + "\n"@
}

/// The lines that show the connections of the identities `order`, in that
/// order.
pub open spec fn lines_of(connections: Map<u128, ConnectionView>, order: Seq<ConnectionId>) -> Seq<
    char,
>
    decreases order.len(),
{
    if order.len() == 0 {
        Seq::<char>::empty()
    } else {
        lines_of(connections, order.drop_last()) + line_of(
            order.last().0,
            connections[order.last().0],
        )
    }
}

/// The stream of the connection `id` that refused, going by the first of
/// `refusals` that names that connection.
pub open spec fn refusal_of(refusals: Seq<Refusal>, id: u128) -> Option<StreamSide>
    decreases refusals.len(),
{
    if refusals.len() == 0 {
        None
    } else {
        match refusal_of(refusals.drop_last(), id) {
            Some(side) => Some(side),
            None => if refusals.last().id.0 == id {
                Some(refusals.last().side)
            } else {
                None
            },
        }
    }
}

/// Those of `refusals` that name a connection of `connections`, in order.
pub open spec fn refusals_within(
    refusals: Seq<Refusal>,
    connections: Map<u128, ConnectionView>,
) -> Seq<Refusal>
    decreases refusals.len(),
{
    if refusals.len() == 0 {
        Seq::<Refusal>::empty()
    } else {
        let earlier = refusals_within(refusals.drop_last(), connections);
        if connections.contains_key(refusals.last().id.0) {
            earlier.push(refusals.last())
        } else {
            earlier
        }
    }
}

/// The connections after the streams of each were asked for `op`, going by
/// `refusals` for what each of them did.
pub open spec fn after_all(
    connections: Map<u128, ConnectionView>,
    op: StreamOp,
    refusals: Seq<Refusal>,
) -> Map<u128, ConnectionView> {
    Map::new(
        |id: u128| connections.contains_key(id),
        |id: u128| connections[id].after(op, refusal_of(refusals, id)),
    )
}

/// Where no refusal names a connection of the patchbay, none of its
/// connections was refused anything.
pub proof fn lemma_nothing_refused(
    refusals: Seq<Refusal>,
    connections: Map<u128, ConnectionView>,
    id: u128,
)
    requires
        refusals_within(refusals, connections).len() == 0,
        connections.contains_key(id),
    ensures
        refusal_of(refusals, id) is None,
    decreases refusals.len(),
{
    if refusals.len() > 0 {
        lemma_nothing_refused(refusals.drop_last(), connections, id);
    }
}

/// A connection that is admitted without a refusal is in the state of the
/// patchbay, and a patchbay whose connections are in step stays so when it
/// admits one. Neither the host nor the running flag changes.
pub proof fn lemma_admitted_connection_in_step(
    patchbay: PatchbayView,
    id: u128,
    connection: ConnectionView,
)
    ensures
        patchbay.running ==> connection.after(patchbay.op(), None).is_running(),
        !patchbay.running ==> connection.after(patchbay.op(), None).is_halted(),
        patchbay.with_connection(id, connection.after(patchbay.op(), None)).running
            == patchbay.running,
        patchbay.in_step() ==> patchbay.with_connection(
            id,
            connection.after(patchbay.op(), None),
        ).in_step(),
{
    let added = connection.after(patchbay.op(), None);
    let grown = patchbay.with_connection(id, added);
    if patchbay.in_step() {
        assert forall|k: u128| #[trigger] grown.connections.contains_key(k) implies if grown.running {
            grown.connections[k].is_running()
        } else {
            grown.connections[k].is_halted()
        } by {
            if k != id {
                assert(patchbay.connections.contains_key(k));
            }
        }
    }
}

/// The patchbay after it admitted, one after the other and without a
/// refusal, the connections `entries` under their identities.
pub open spec fn admitted(patchbay: PatchbayView, entries: Seq<(u128, ConnectionView)>) -> PatchbayView
    decreases entries.len(),
{
    if entries.len() == 0 {
        patchbay
    } else {
        let before = admitted(patchbay, entries.drop_last());
        before.with_connection(entries.last().0, entries.last().1.after(before.op(), None))
    }
}

/// However many connections a patchbay admits, each of them is in its
/// state from then on: running if the patchbay runs, halted if it is
/// stopped. The running flag itself does not change.
pub proof fn lemma_admitted_connections_in_step(
    patchbay: PatchbayView,
    entries: Seq<(u128, ConnectionView)>,
)
    requires
        patchbay.in_step(),
    ensures
        admitted(patchbay, entries).running == patchbay.running,
        admitted(patchbay, entries).host == patchbay.host,
        admitted(patchbay, entries).in_step(),
        forall|i: int|
            0 <= i < entries.len() ==> admitted(patchbay, entries).connections.contains_key(
                (#[trigger] entries[i]).0,
            ),
    decreases entries.len(),
{
    if entries.len() > 0 {
        let earlier = entries.drop_last();
        let before = admitted(patchbay, earlier);
        lemma_admitted_connections_in_step(patchbay, earlier);
        lemma_admitted_connection_in_step(before, entries.last().0, entries.last().1);
        assert forall|i: int| 0 <= i < entries.len() implies admitted(
            patchbay,
            entries,
        ).connections.contains_key((#[trigger] entries[i]).0) by {
            if i < entries.len() - 1 {
                assert(earlier[i] == entries[i]);
                assert(before.connections.contains_key(earlier[i].0));
            }
        }
    }
}

/// Halting twice in a row, with no stream refusing, leaves what halting
/// once leaves: a stopped patchbay whose connections are all halted.
pub proof fn lemma_halt_twice_is_halt_once(
    patchbay: PatchbayView,
    first: Seq<Refusal>,
    second: Seq<Refusal>,
)
    requires
        refusals_within(first, patchbay.connections).len() == 0,
        refusals_within(second, patchbay.connections).len() == 0,
    ensures
        patchbay.halted(first).halted(second) == patchbay.halted(first),
        patchbay.halted(first).in_step(),
        refusals_within(second, patchbay.halted(first).connections).len() == 0,
{
    let once = patchbay.halted(first);
    let twice = once.halted(second);
    assert(once.connections.dom() =~= patchbay.connections.dom());
    lemma_refusals_within_same_domain(second, patchbay.connections, once.connections);
    assert forall|id: u128| once.connections.contains_key(id) implies #[trigger] twice.connections[id]
        == once.connections[id] by {
        lemma_nothing_refused(first, patchbay.connections, id);
        lemma_nothing_refused(second, patchbay.connections, id);
    }
    assert(twice.connections =~= once.connections);
    assert forall|id: u128| #[trigger]
        once.connections.contains_key(id) implies once.connections[id].is_halted() by {
        lemma_nothing_refused(first, patchbay.connections, id);
    }
}

/// Which refusals name a connection depends on the identities alone.
pub proof fn lemma_refusals_within_same_domain(
    refusals: Seq<Refusal>,
    a: Map<u128, ConnectionView>,
    b: Map<u128, ConnectionView>,
)
    requires
        a.dom() == b.dom(),
    ensures
        refusals_within(refusals, a) == refusals_within(refusals, b),
    decreases refusals.len(),
{
    if refusals.len() > 0 {
        lemma_refusals_within_same_domain(refusals.drop_last(), a, b);
        assert(a.contains_key(refusals.last().id.0) == b.contains_key(refusals.last().id.0));
    }
}

/// A refusal found among the first `n` of `refusals` is what all of them say.
proof fn lemma_refusal_stays(refusals: Seq<Refusal>, n: int, id: u128)
    requires
        0 <= n <= refusals.len(),
        refusal_of(refusals.take(n), id) is Some,
    ensures
        refusal_of(refusals, id) == refusal_of(refusals.take(n), id),
    decreases refusals.len() - n,
{
    if n < refusals.len() {
        assert(refusals.take(n + 1).drop_last() =~= refusals.take(n));
        lemma_refusal_stays(refusals, n + 1, id);
    } else {
        assert(refusals.take(n) =~= refusals);
    }
}

/// The middle of the identities' range.
pub const HALFWAY: u128 = 0x8000_0000_0000_0000_0000_0000_0000_0000;

/// The identity that lies `steps` from `start` on the way towards the
/// middle of the range: upwards from the lower half, downwards from the
/// upper half.
pub open spec fn probe(start: u128, steps: nat) -> u128 {
    if start < HALFWAY {
        (start + steps) as u128
    } else {
        (start - steps) as u128
    }
}

/// The first `n` identities on the way from `start` towards the middle.
pub open spec fn probed(start: u128, n: nat) -> Set<u128> {
    Set::new(|x: u128| exists|k: nat| k < n && x == probe(start, k))
}

/// The first `n` identities on the way from `start` are `n` different ones,
/// as long as the way does not leave the half it starts in.
pub proof fn lemma_probed(start: u128, n: nat)
    requires
        n <= 0x1_0000_0000_0000_0000,
    ensures
        probed(start, n).finite(),
        probed(start, n).len() == n,
    decreases n,
{
    if n == 0 {
        assert(probed(start, 0) =~= Set::<u128>::empty());
    } else {
        let fewer = probed(start, (n - 1) as nat);
        let last = probe(start, (n - 1) as nat);
        lemma_probed(start, (n - 1) as nat);
        assert(!fewer.contains(last)) by {
            if fewer.contains(last) {
                let k = choose|k: nat| k < n - 1 && last == probe(start, k);
                assert(probe(start, k) != probe(start, (n - 1) as nat));
            }
        }
        assert(probed(start, n) =~= fewer.insert(last)) by {
            assert forall|x: u128| probed(start, n).contains(x) implies fewer.insert(last).contains(
                x,
            ) by {
                let k = choose|k: nat| k < n && x == probe(start, k);
                if k < n - 1 {
                    assert(fewer.contains(x));
                }
            }
            assert forall|x: u128| fewer.insert(last).contains(x) implies probed(start, n).contains(
                x,
            ) by {
                if x == last {
                    let k = (n - 1) as nat;
                    assert(k < n && x == probe(start, k));
                } else {
                    let k = choose|k: nat| k < n - 1 && x == probe(start, k);
                    assert(k < n && x == probe(start, k));
                }
            }
        }
    }
}

/// The error for a stream that refused `op`.
pub open spec fn stream_error(op: StreamOp, side: StreamSide) -> PatchbayError {
    match op {
        StreamOp::Play => PatchbayError::StreamStartError(side),
        StreamOp::Pause => PatchbayError::StreamStopError(side),
    }
}

/// The owner of the connections: the selected host, the connections by
/// identity, and whether audio runs.
pub struct Patchbay {
    host: String,
    connections: HashMap<u128, Connection>,
    running: bool,
}

impl View for Patchbay {
    type V = PatchbayView;

    closed spec fn view(&self) -> PatchbayView {
        PatchbayView {
            host: self.host@,
            connections: self.connections@.map_values(|c: Connection| c@),
            running: self.running,
        }
    }
}

impl Patchbay {
    /// A stopped patchbay on `host` without connections.
    pub fn new(host: &str) -> (patchbay: Patchbay)
        ensures
            patchbay@ == (PatchbayView {
                host: host@,
                connections: Map::<u128, ConnectionView>::empty(),
                running: false,
            }),
    {
        let patchbay = Patchbay {
            host: host.to_owned(),
            connections: HashMap::new(),
            running: false,
        };
        assert(patchbay.connections@.map_values(|c: Connection| c@) =~= Map::<
            u128,
            ConnectionView,
        >::empty());
        patchbay
    }

    /// The name of the selected host.
    pub fn host(&self) -> (host: &str)
        ensures
            host@ == self@.host,
    {
        self.host.as_str()
    }

    /// Selects the host on which connections are made from now on. The
    /// connections that exist keep the host they were made on.
    pub fn set_host(&mut self, host: &str) -> (r: Result<(), PatchbayError>)
        ensures
            r is Ok,
            final(self)@ == (PatchbayView { host: host@, ..old(self)@ }),
            old(self)@.in_step() ==> final(self)@.in_step(),
    {
        self.host = host.to_owned();
        Ok(())
    }

    /// Whether audio runs.
    pub fn is_running(&self) -> (running: bool)
        ensures
            running == self@.running,
    {
        self.running
    }

    /// Whether the patchbay holds a connection of that identity.
    pub fn contains(&self, id: &ConnectionId) -> (found: bool)
        ensures
            found == self@.connections.contains_key(id.0),
    {
        self.connections.contains_key(&id.0)
    }

    /// The connection of that identity.
    pub fn connection(&self, id: &ConnectionId) -> (found: Option<&Connection>)
        ensures
            match found {
                Some(connection) => self@.connections.contains_key(id.0) && connection@
                    == self@.connections[id.0],
                None => !self@.connections.contains_key(id.0),
            },
    {
        self.connections.get(&id.0)
    }

    /// The requests that a new connection has to go through before it is
    /// added: those of a start while audio runs, those of a halt while it is
    /// stopped, since a backend may start a stream as it constructs it.
    pub fn admission(&self) -> (commands: (StreamCommand, StreamCommand))
        ensures
            commands == sequence_of(self@.op()),
    {
        if self.running {
            Connection::sequence(StreamOp::Play)
        } else {
            Connection::sequence(StreamOp::Pause)
        }
    }

    /// Adds `connection` under the identity `id`, given the outcome of its
    /// admission: `refused` names the stream that refused a request of
    /// `admission()`, if one did. After a refusal, or where the identity is
    /// taken, the connection is not added and the patchbay stays as it was.
    pub fn insert_connection(
        &mut self,
        id: ConnectionId,
        connection: Connection,
        refused: Option<StreamSide>,
    ) -> (r: Result<ConnectionId, PatchbayError>)
        ensures
            match r {
                Ok(added) => {
                    &&& added == id
                    &&& refused is None
                    &&& !old(self)@.connections.contains_key(id.0)
                    &&& final(self)@ == old(self)@.with_connection(
                        id.0,
                        connection@.after(old(self)@.op(), None),
                    )
                },
                Err(e) => {
                    &&& final(self)@ == old(self)@
                    &&& match refused {
                        Some(side) => e == stream_error(old(self)@.op(), side),
                        None => old(self)@.connections.contains_key(id.0) && e
                            == PatchbayError::IdentityInUse(id),
                    }
                },
            },
            refused is None && !old(self)@.connections.contains_key(id.0) ==> {
                &&& r == Ok::<ConnectionId, PatchbayError>(id)
                &&& final(self)@.connections.contains_key(id.0)
                &&& final(self)@.connections[id.0].metadata == connection@.metadata
                &&& old(self)@.running ==> final(self)@.connections[id.0].is_running()
                &&& !old(self)@.running ==> final(self)@.connections[id.0].is_halted()
                &&& final(self)@.running == old(self)@.running
            },
            old(self)@.in_step() ==> final(self)@.in_step(),
    {
        proof {
            lemma_admitted_connection_in_step(old(self)@, id.0, connection@);
        }
        let mut connection = connection;
        let admitted = if self.running {
            connection.run(refused)
        } else {
            connection.halt(refused)
        };
        match admitted {
            Ok(()) => {},
            Err(e) => {
                return Err(e);
            },
        }
        if self.connections.contains_key(&id.0) {
            return Err(PatchbayError::IdentityInUse(id));
        }
        let ghost before = self.connections@;
        self.connections.insert(id.0, connection);
        assert(self.connections@.map_values(|c: Connection| c@) =~= before.map_values(
            |c: Connection| c@,
        ).insert(id.0, connection@));
        Ok(id)
    }

    /// An identity that no connection of the patchbay has: `drawn` itself if
    /// it is free, else the nearest free identity on the way from `drawn`
    /// towards the middle of the identities' range.
    pub fn free_identity(&self, drawn: ConnectionId) -> (id: ConnectionId)
        ensures
            !self@.connections.contains_key(id.0),
            !self@.connections.contains_key(drawn.0) ==> id == drawn,
            exists|steps: nat|
                id.0 == probe(drawn.0, steps) && forall|k: nat|
                    k < steps ==> self@.connections.contains_key(#[trigger] probe(drawn.0, k)),
    {
        let up = drawn.0 < HALFWAY;
        let held = self.connections.len();
        let mut candidate: u128 = drawn.0;
        let mut steps: usize = 0;
        assert(self@.connections.dom() =~= self.connections@.dom());
        while self.connections.contains_key(&candidate)
            invariant
                up == (drawn.0 < HALFWAY),
                held == self.connections@.dom().len(),
                self@.connections.dom() == self.connections@.dom(),
                steps <= held,
                candidate == probe(drawn.0, steps as nat),
                forall|k: nat|
                    k < steps ==> self.connections@.contains_key(#[trigger] probe(drawn.0, k)),
            decreases held - steps,
        {
            proof {
                let taken = probed(drawn.0, (steps + 1) as nat);
                lemma_probed(drawn.0, (steps + 1) as nat);
                assert(taken.subset_of(self.connections@.dom())) by {
                    assert forall|x: u128| taken.contains(x) implies self.connections@.dom().contains(
                        x,
                    ) by {
                        let k = choose|k: nat| k < steps + 1 && x == probe(drawn.0, k);
                        if k == steps {
                            assert(x == candidate);
                        }
                    }
                }
                vstd::set_lib::lemma_len_subset(taken, self.connections@.dom());
            }
            if up {
                candidate = candidate + 1;
            } else {
                candidate = candidate - 1;
            }
            steps += 1;
        }
        proof {
            if steps > 0 {
                assert(self.connections@.contains_key(probe(drawn.0, 0)));
            }
        }
        ConnectionId(candidate)
    }

    /// Adds `connection` under a fresh identity, given the outcome of its
    /// admission: `refused` names the stream that refused a request of
    /// `admission()`, if one did. Unless a stream refused, the connection is
    /// added, and it is in the state of the patchbay: running while audio
    /// runs, halted while it is stopped. The identity is a random one, or
    /// the nearest free one if the random one was taken.
    pub fn add_connection(&mut self, connection: Connection, refused: Option<StreamSide>) -> (r:
        Result<ConnectionId, PatchbayError>)
        ensures
            match refused {
                None => {
                    &&& r matches Ok(id)
                    &&& !old(self)@.connections.contains_key(id.0)
                    &&& exists|drawn: u128, steps: nat|
                        is_random_uuid(drawn) && id.0 == #[trigger] probe(drawn, steps) && forall|
                            k: nat,
                        |
                            k < steps ==> old(self)@.connections.contains_key(
                                #[trigger] probe(drawn, k),
                            )
                    &&& final(self)@ == old(self)@.with_connection(
                        id.0,
                        connection@.after(old(self)@.op(), None),
                    )
                    &&& old(self)@.running ==> final(self)@.connections[id.0].is_running()
                    &&& !old(self)@.running ==> final(self)@.connections[id.0].is_halted()
                },
                Some(side) => r == Err::<ConnectionId, PatchbayError>(
                    stream_error(old(self)@.op(), side),
                ) && final(self)@ == old(self)@,
            },
            old(self)@.in_step() ==> final(self)@.in_step(),
    {
        let drawn = ConnectionId::generate();
        let id = self.free_identity(drawn);
        self.insert_connection(id, connection, refused)
    }

    /// Removes the connection of identity `id`, given the outcome of halting
    /// it: `refused` names the stream that refused to pause, if one did.
    /// After a refusal the connection stays, to be halted again.
    pub fn remove_connection(&mut self, id: &ConnectionId, refused: Option<StreamSide>) -> (r:
        Result<(), PatchbayError>)
        ensures
            !old(self)@.connections.contains_key(id.0) ==> r == Err::<(), PatchbayError>(
                PatchbayError::ConnectionNotFound(*id),
            ) && final(self)@ == old(self)@,
            old(self)@.connections.contains_key(id.0) ==> match refused {
                None => r is Ok && final(self)@ == old(self)@.without_connection(id.0),
                Some(side) => r == Err::<(), PatchbayError>(PatchbayError::StreamStopError(side))
                    && final(self)@ == old(self)@.with_connection(
                    id.0,
                    old(self)@.connections[id.0].after(StreamOp::Pause, refused),
                ),
            },
            r is Ok && old(self)@.in_step() ==> final(self)@.in_step(),
    {
        let ghost before = self.connections@;
        match self.connections.remove(&id.0) {
            None => {
                assert(self.connections@ =~= before);
                Err(PatchbayError::ConnectionNotFound(*id))
            },
            Some(connection) => {
                let mut connection = connection;
                match connection.halt(refused) {
                    Ok(()) => {
                        assert(self.connections@.map_values(|c: Connection| c@)
                            =~= before.map_values(|c: Connection| c@).remove(id.0));
                        proof {
                            if old(self)@.in_step() {
                                assert forall|k: u128| #[trigger]
                                    self@.connections.contains_key(k) implies if self@.running {
                                    self@.connections[k].is_running()
                                } else {
                                    self@.connections[k].is_halted()
                                } by {
                                    assert(old(self)@.connections.contains_key(k));
                                }
                            }
                        }
                        Ok(())
                    },
                    Err(e) => {
                        self.connections.insert(id.0, connection);
                        assert(self.connections@.map_values(|c: Connection| c@)
                            =~= before.map_values(|c: Connection| c@).insert(id.0, connection@));
                        Err(e)
                    },
                }
            },
        }
    }

    /// The identities of the connections, each once, in no particular order.
    pub fn ids(&self) -> (ids: Vec<ConnectionId>)
        ensures
            ids@.no_duplicates(),
            forall|id: ConnectionId|
                ids@.contains(id) <==> self@.connections.contains_key(id.0),
    {
        let mut ids: Vec<ConnectionId> = Vec::new();
        let ghost all = self.connections.keys().remaining().unref();
        assert(all.to_set() == self.connections@.dom());
        assert(all.no_duplicates());
        assert(self@.connections.dom() =~= self.connections@.dom());
        for key in iter: self.connections.keys()
            invariant
                iter.seq().unref() == all,
                ids@.len() == iter.index(),
                forall|k: int| 0 <= k < ids@.len() ==> (#[trigger] ids@[k]).0 == all[k],
        {
            assert(all[iter.index()] == *key);
            ids.push(ConnectionId(*key));
        }
        assert(ids@.len() == all.len());
        proof {
            assert forall|a: int, b: int| 0 <= a < b < ids@.len() implies ids@[a] != ids@[b] by {
                assert(all[a] != all[b]);
            }
            assert forall|id: ConnectionId|
                ids@.contains(id) <==> self@.connections.contains_key(id.0) by {
                if ids@.contains(id) {
                    let k = choose|k: int| 0 <= k < ids@.len() && ids@[k] == id;
                    assert(all[k] == id.0);
                    assert(all.contains(id.0));
                    assert(all.to_set().contains(id.0));
                }
                if self@.connections.contains_key(id.0) {
                    assert(all.to_set().contains(id.0));
                    assert(all.contains(id.0));
                    let k = choose|k: int| 0 <= k < all.len() && all[k] == id.0;
                    assert(ids@[k] == id);
                }
            }
        }
        ids
    }

    /// Looks up what `refusals` say of the connection `id`.
    fn first_refusal(refusals: &Vec<Refusal>, id: u128) -> (refused: Option<StreamSide>)
        ensures
            refused == refusal_of(refusals@, id),
    {
        let mut i: usize = 0;
        assert(refusals@.take(0) =~= Seq::<Refusal>::empty());
        while i < refusals.len()
            invariant
                i <= refusals.len(),
                refusal_of(refusals@.take(i as int), id) is None,
            decreases refusals.len() - i,
        {
            assert(refusals@.take(i + 1).drop_last() =~= refusals@.take(i as int));
            if refusals[i].id.0 == id {
                proof {
                    lemma_refusal_stays(refusals@, i + 1, id);
                }
                return Some(refusals[i].side);
            }
            i += 1;
        }
        assert(refusals@.take(i as int) =~= refusals@);
        None
    }

    /// Picks out of `refusals` those that name a connection of the patchbay.
    fn refusals_known(&self, refusals: &Vec<Refusal>) -> (known: Vec<Refusal>)
        ensures
            known@ == refusals_within(refusals@, self@.connections),
    {
        let mut known: Vec<Refusal> = Vec::new();
        let mut i: usize = 0;
        assert(refusals@.take(0) =~= Seq::<Refusal>::empty());
        while i < refusals.len()
            invariant
                i <= refusals.len(),
                known@ == refusals_within(refusals@.take(i as int), self@.connections),
            decreases refusals.len() - i,
        {
            assert(refusals@.take(i + 1).drop_last() =~= refusals@.take(i as int));
            if self.connections.contains_key(&refusals[i].id.0) {
                known.push(refusals[i]);
            }
            i += 1;
        }
        assert(refusals@.take(i as int) =~= refusals@);
        known
    }

    /// Records for every connection the outcome of `op`.
    fn record_all(&mut self, op: StreamOp, refusals: &Vec<Refusal>)
        ensures
            final(self)@ == (PatchbayView {
                connections: after_all(old(self)@.connections, op, refusals@),
                ..old(self)@
            }),
    {
        let ids = self.ids();
        let ghost before = self.connections@;
        let mut i: usize = 0;
        while i < ids.len()
            invariant
                i <= ids.len(),
                ids@.no_duplicates(),
                forall|id: ConnectionId| ids@.contains(id) <==> before.contains_key(id.0),
                self.host == old(self).host,
                self.running == old(self).running,
                self.connections@.dom() == before.dom(),
                forall|k: int|
                    0 <= k < i ==> self.connections@[(#[trigger] ids@[k]).0]@ == before[ids@[k].0]@.after(
                        op,
                        refusal_of(refusals@, ids@[k].0),
                    ),
                forall|k: int|
                    i <= k < ids@.len() ==> self.connections@[(#[trigger] ids@[k]).0]
                        == before[ids@[k].0],
            decreases ids.len() - i,
        {
            let id = ids[i];
            assert(ids@.contains(id));
            let refused = Patchbay::first_refusal(refusals, id.0);
            let ghost during = self.connections@;
            match self.connections.remove(&id.0) {
                Some(connection) => {
                    let mut connection = connection;
                    connection.record(op, refused);
                    self.connections.insert(id.0, connection);
                    assert(self.connections@ =~= during.insert(id.0, connection));
                },
                None => {},
            }
            assert(self.connections@.dom() =~= before.dom());
            i += 1;
        }
        proof {
            assert forall|id: u128| before.contains_key(id) implies self.connections@[id]@
                == before[id]@.after(op, refusal_of(refusals@, id)) by {
                assert(ids@.contains(ConnectionId(id)));
                let k = choose|k: int| 0 <= k < ids@.len() && ids@[k] == ConnectionId(id);
                assert(ids@[k].0 == id);
            }
            assert(self@.connections =~= after_all(old(self)@.connections, op, refusals@));
        }
    }

    /// Records the outcome of starting all connections: the backend was
    /// asked to start each of them, and `refusals` name the streams that
    /// refused. The patchbay counts as running from then on, whatever was
    /// refused; the refusals come back as one error.
    pub fn run(&mut self, refusals: &Vec<Refusal>) -> (r: Result<(), PatchbayError>)
        ensures
            final(self)@ == old(self)@.started(refusals@),
            match r {
                Ok(()) => refusals_within(refusals@, old(self)@.connections).len() == 0
                    && final(self)@.in_step(),
                Err(e) => e matches PatchbayError::StartRefused(known) && known@.len() > 0
                    && known@ == refusals_within(refusals@, old(self)@.connections),
            },
    {
        let known = self.refusals_known(refusals);
        self.record_all(StreamOp::Play, refusals);
        self.running = true;
        if known.len() == 0 {
            proof {
                assert forall|id: u128| #[trigger]
                    self@.connections.contains_key(id) implies self@.connections[id].is_running() by {
                    lemma_nothing_refused(refusals@, old(self)@.connections, id);
                }
            }
            Ok(())
        } else {
            Err(PatchbayError::StartRefused(known))
        }
    }

    /// Records the outcome of halting all connections: the backend was asked
    /// to halt each of them, and `refusals` name the streams that refused.
    /// The patchbay counts as stopped from then on, whatever was refused;
    /// the refusals come back as one error.
    pub fn halt(&mut self, refusals: &Vec<Refusal>) -> (r: Result<(), PatchbayError>)
        ensures
            final(self)@ == old(self)@.halted(refusals@),
            match r {
                Ok(()) => refusals_within(refusals@, old(self)@.connections).len() == 0
                    && final(self)@.in_step(),
                Err(e) => e matches PatchbayError::StopRefused(known) && known@.len() > 0
                    && known@ == refusals_within(refusals@, old(self)@.connections),
            },
    {
        let known = self.refusals_known(refusals);
        self.record_all(StreamOp::Pause, refusals);
        self.running = false;
        if known.len() == 0 {
            proof {
                assert forall|id: u128| #[trigger]
                    self@.connections.contains_key(id) implies self@.connections[id].is_halted() by {
                    lemma_nothing_refused(refusals@, old(self)@.connections, id);
                }
            }
            Ok(())
        } else {
            Err(PatchbayError::StopRefused(known))
        }
    }

    /// Removes all connections, given the outcome of halting them: the
    /// backend was asked to halt each of them, and `refusals` name the
    /// streams that refused. The connections are removed only if none
    /// refused; otherwise all of them stay and the refusals come back as
    /// one error.
    pub fn remove_all_connections(&mut self, refusals: &Vec<Refusal>) -> (r: Result<
        (),
        PatchbayError,
    >)
        ensures
            match r {
                Ok(()) => refusals_within(refusals@, old(self)@.connections).len() == 0
                    && final(self)@ == (PatchbayView {
                    connections: Map::<u128, ConnectionView>::empty(),
                    ..old(self)@
                }),
                Err(e) => e matches PatchbayError::StopRefused(known) && known@.len() > 0
                    && known@ == refusals_within(refusals@, old(self)@.connections)
                    && final(self)@ == (PatchbayView {
                    connections: after_all(old(self)@.connections, StreamOp::Pause, refusals@),
                    ..old(self)@
                }),
            },
    {
        let known = self.refusals_known(refusals);
        if known.len() == 0 {
            self.connections.clear();
            assert(self@.connections =~= Map::<u128, ConnectionView>::empty());
            Ok(())
        } else {
            self.record_all(StreamOp::Pause, refusals);
            Err(PatchbayError::StopRefused(known))
        }
    }

    /// What is to be persisted of the patchbay.
    pub fn state(&self) -> (state: PatchbayState)
        ensures
            state@ == document_of(self@),
    {
        let ids = self.ids();
        let mut connections: HashMap<u128, ConnectionMetadata> = HashMap::new();
        let mut i: usize = 0;
        while i < ids.len()
            invariant
                i <= ids.len(),
                forall|id: ConnectionId| ids@.contains(id) <==> self@.connections.contains_key(id.0),
                forall|id: u128|
                    connections@.contains_key(id) <==> exists|k: int|
                        0 <= k < i && (#[trigger] ids@[k]).0 == id,
                forall|id: u128| #[trigger]
                    connections@.contains_key(id) ==> self@.connections.contains_key(id)
                        && connections@[id]@ == self@.connections[id].metadata,
            decreases ids.len() - i,
        {
            let id = ids[i];
            assert(ids@.contains(id));
            let ghost before = connections@;
            match self.connections.get(&id.0) {
                Some(connection) => {
                    connections.insert(id.0, connection.metadata().clone());
                },
                None => {},
            }
            proof {
                assert forall|key: u128|
                    connections@.contains_key(key) <==> exists|k: int|
                        0 <= k < i + 1 && (#[trigger] ids@[k]).0 == key by {
                    if connections@.contains_key(key) {
                        if key == id.0 {
                            assert(ids@[i as int].0 == key);
                        } else {
                            assert(before.contains_key(key));
                            let k = choose|k: int| 0 <= k < i && (#[trigger] ids@[k]).0 == key;
                            assert(0 <= k < i + 1 && ids@[k].0 == key);
                        }
                    }
                    if exists|k: int| 0 <= k < i + 1 && (#[trigger] ids@[k]).0 == key {
                        let k = choose|k: int| 0 <= k < i + 1 && (#[trigger] ids@[k]).0 == key;
                        if k < i {
                            assert(before.contains_key(key));
                        }
                    }
                }
            }
            i += 1;
        }
        let state = PatchbayState { host: self.host.clone(), connections };
        proof {
            assert forall|id: u128| self@.connections.contains_key(id) implies connections@.contains_key(
                id,
            ) by {
                assert(ids@.contains(ConnectionId(id)));
                let k = choose|k: int| 0 <= k < ids@.len() && ids@[k] == ConnectionId(id);
                assert(ids@[k].0 == id);
            }
            assert(state@.connections =~= document_of(self@).connections);
        }
        state
    }

    /// Makes the patchbay that was persisted: stopped, on `host`, with the
    /// connections `entries`, each rebuilt from its persisted metadata and
    /// under its persisted identity, given the outcome of halting them:
    /// `refusals` name the streams that refused to pause. Every connection
    /// is halted, whatever it was when the patchbay was saved. Where a
    /// stream refused, or two entries share an identity, there is no
    /// patchbay.
    pub fn load(host: &str, entries: Vec<(ConnectionId, Connection)>, refusals: &Vec<Refusal>) -> (r:
        Result<Patchbay, PatchbayError>)
        ensures
            match r {
                Ok(patchbay) => {
                    &&& holds_rebuilt(patchbay@, host@, rebuilt_of(entries@))
                    &&& patchbay@.in_step()
                    &&& distinct_ids(entries@)
                    &&& forall|i: int|
                        0 <= i < entries@.len() ==> refusal_of(
                            refusals@,
                            (#[trigger] entries@[i]).0.0,
                        ) is None
                },
                Err(e) => {
                    ||| exists|i: int|
                        0 <= i < entries@.len() && refusal_of(
                            refusals@,
                            (#[trigger] entries@[i]).0.0,
                        ) is Some && e == PatchbayError::StreamStopError(
                            refusal_of(refusals@, entries@[i].0.0)->0,
                        )
                    ||| !distinct_ids(entries@) && e matches PatchbayError::IdentityInUse(_)
                },
            },
    {
        let mut patchbay = Patchbay::new(host);
        let ghost all = entries@;
        let mut pending = entries;
        assert(all.take(all.len() as int) =~= all);
        loop
            invariant
                all == entries@,
                pending@ == all.take(pending@.len() as int),
                pending@.len() <= all.len(),
                patchbay@.host == host@,
                !patchbay@.running,
                patchbay@.in_step(),
                forall|i: int|
                    pending@.len() <= i < all.len() ==> patchbay@.connections.contains_key(
                        (#[trigger] all[i]).0.0,
                    ) && patchbay@.connections[all[i].0.0] == all[i].1@.after(StreamOp::Pause, None)
                        && refusal_of(refusals@, all[i].0.0) is None,
                forall|id: u128| #[trigger]
                    patchbay@.connections.contains_key(id) ==> exists|i: int|
                        pending@.len() <= i < all.len() && (#[trigger] all[i]).0.0 == id,
                forall|i: int, j: int|
                    pending@.len() <= i < j < all.len() ==> (#[trigger] all[i]).0 != (
                    #[trigger] all[j]).0,
            ensures
                pending@.len() == 0,
            decreases pending@.len(),
        {
            let ghost n = pending@.len() - 1;
            let ghost held = patchbay@;
            let (id, connection) = match pending.pop() {
                Some(entry) => entry,
                None => {
                    break ;
                },
            };
            assert(all[n] == (id, connection));
            assert(pending@ =~= all.take(n));
            let refused = Patchbay::first_refusal(refusals, id.0);
            match patchbay.insert_connection(id, connection, refused) {
                Ok(_) => {
                    proof {
                        assert forall|i: int, j: int| n <= i < j < all.len() implies (
                        #[trigger] all[i]).0 != (#[trigger] all[j]).0 by {
                            if i == n {
                                assert(held.connections.contains_key(all[j].0.0));
                            }
                        }
                        assert forall|key: u128| #[trigger]
                            patchbay@.connections.contains_key(key) implies exists|i: int|
                            n <= i < all.len() && (#[trigger] all[i]).0.0 == key by {
                            if key == id.0 {
                                assert(all[n].0.0 == key);
                            } else {
                                assert(held.connections.contains_key(key));
                                let i = choose|i: int|
                                    n + 1 <= i < all.len() && (#[trigger] all[i]).0.0 == key;
                                assert(n <= i < all.len() && all[i].0.0 == key);
                            }
                        }
                    }
                },
                Err(e) => {
                    proof {
                        match refused {
                            None => {
                                assert(held.connections.contains_key(id.0));
                                let j = choose|j: int|
                                    n + 1 <= j < all.len() && (#[trigger] all[j]).0.0 == id.0;
                                assert(all[n].0 == all[j].0);
                                assert(!distinct_ids(all));
                            },
                            Some(side) => {
                                assert(held.op() == StreamOp::Pause);
                                assert(refusal_of(refusals@, all[n].0.0) == Some(side));
                                assert(e == PatchbayError::StreamStopError(side));
                            },
                        }
                    }
                    return Err(e);
                },
            }
        }
        proof {
            assert forall|i: int| 0 <= i < rebuilt_of(all).len() implies patchbay@.connections.contains_key(
                (#[trigger] rebuilt_of(all)[i]).0,
            ) && patchbay@.connections[rebuilt_of(all)[i].0] == rebuilt_of(all)[i].1.after(
                StreamOp::Pause,
                None,
            ) by {
                assert(patchbay@.connections.contains_key(all[i].0.0));
            }
            assert forall|id: u128| #[trigger]
                patchbay@.connections.contains_key(id) implies exists|i: int|
                0 <= i < rebuilt_of(all).len() && (#[trigger] rebuilt_of(all)[i]).0 == id by {
                let i = choose|i: int| 0 <= i < all.len() && (#[trigger] all[i]).0.0 == id;
                assert(rebuilt_of(all)[i].0 == id);
            }
        }
        Ok(patchbay)
    }

    /// Shows the patchbay to the operator: whether it runs, the host, and
    /// one line for each connection, in no particular order.
    pub fn to_string(&self) -> (text: String)
        ensures
            exists|order: Seq<ConnectionId>|
                {
                    &&& order.no_duplicates()
                    &&& forall|id: ConnectionId|
                        order.contains(id) <==> self@.connections.contains_key(id.0)
                    &&& text@ == heading_of(self@) + #[trigger] lines_of(self@.connections, order)
                },
    {
        let mut text = String::from_str("Running: ");
        text.append(bool_text(self.running));
        text.append("\n--\nHost: ");
        text.append(self.host.as_str());
        text.append("\n--\nConnections:\n");
        let ids = self.ids();
        let mut i: usize = 0;
        assert(ids@.take(0) =~= Seq::<ConnectionId>::empty());
        assert(text@ =~= heading_of(self@) + lines_of(self@.connections, ids@.take(0)));
        while i < ids.len()
            invariant
                i <= ids.len(),
                forall|id: ConnectionId| ids@.contains(id) <==> self@.connections.contains_key(id.0),
                text@ == heading_of(self@) + lines_of(self@.connections, ids@.take(i as int)),
            decreases ids.len() - i,
        {
            let id = ids[i];
            assert(ids@.contains(id));
            let ghost before = text@;
            match self.connections.get(&id.0) {
                Some(connection) => {
                    text.append(id.text().as_str());
                    text.append(": ");
                    text.append(connection.to_string().as_str());
                    text.append("\n");
                    proof {
                        assert(ids@.take(i + 1).drop_last() =~= ids@.take(i as int));
                        assert(ids@.take(i + 1).last() == id);
                        assert(text@ =~= before + line_of(id.0, self@.connections[id.0]));
                        assert(text@ =~= heading_of(self@) + lines_of(
                            self@.connections,
                            ids@.take(i + 1),
                        ));
                    }
                },
                None => {},
            }
            i += 1;
        }
        assert(ids@.take(i as int) =~= ids@);
        text
    }

    /// The number of connections.
    pub fn len(&self) -> (n: usize)
        ensures
            n == self@.connections.len(),
    {
        proof {
            assert(self@.connections.dom() =~= self.connections@.dom());
        }
        self.connections.len()
    }
}

} // verus!
