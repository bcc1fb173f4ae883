//! The channel handshake and the table of channel records.
//!
//! A connection carries at most one channel of this protocol. A channel is
//! recorded when its handshake starts, becomes usable when the handshake
//! completes, and is never closed.

use vstd::prelude::*;
use crate::error::{ChannelOrder, Error, ErrorView};
use crate::order::{key_lt, lemma_str_lt_irreflexive, str_lt};
use crate::table::{lemma_filter_suffix, lemma_map_of_index, page, sorted, Key, KeyView, Table};

verus! {

/// The protocol version that both ends of a channel must speak.
pub open spec fn version_spec() -> Seq<char> {
    "ics999-1"@
}

/// The protocol version that both ends of a channel must speak.
pub fn protocol_version() -> (r: String)
    ensures
        r@ == version_spec(),
{
    "ics999-1".to_owned()
}

/// How far the handshake of a channel has come.
#[derive(Clone, Copy, Debug, PartialEq, Eq, Structural)]
pub enum ChannelState {
    /// This end started the handshake.
    Init,
    /// The other end started the handshake.
    TryOpen,
    /// The handshake is complete: packets may flow.
    Open,
}

/// What a handshake callback tells of a channel.
#[derive(Clone, Debug, PartialEq, Eq)]
pub struct Channel {
    pub connection_id: String,
    pub port_id: String,
    pub channel_id: String,
    pub counterparty_port_id: String,
    pub order: ChannelOrder,
    pub version: String,
}

/// The mathematical value of a [`Channel`].
pub struct ChannelView {
    pub connection_id: Seq<char>,
    pub port_id: Seq<char>,
    pub channel_id: Seq<char>,
    pub counterparty_port_id: Seq<char>,
    pub order: ChannelOrder,
    pub version: Seq<char>,
}

impl View for Channel {
    type V = ChannelView;

    open spec fn view(&self) -> ChannelView {
        ChannelView {
            connection_id: self.connection_id@,
            port_id: self.port_id@,
            channel_id: self.channel_id@,
            counterparty_port_id: self.counterparty_port_id@,
            order: self.order,
            version: self.version@,
        }
    }
}

/// What the contract remembers of a channel.
#[derive(Clone, Debug, PartialEq, Eq)]
pub struct ChannelRecord {
    pub connection_id: String,
    pub channel_id: String,
    pub port_id: String,
    pub counterparty_port_id: String,
    pub version: String,
    pub order: ChannelOrder,
    pub state: ChannelState,
}

/// The mathematical value of a [`ChannelRecord`].
pub struct ChannelRecordView {
    pub connection_id: Seq<char>,
    pub channel_id: Seq<char>,
    pub port_id: Seq<char>,
    pub counterparty_port_id: Seq<char>,
    pub version: Seq<char>,
    pub order: ChannelOrder,
    pub state: ChannelState,
}

impl View for ChannelRecord {
    type V = ChannelRecordView;

    open spec fn view(&self) -> ChannelRecordView {
        ChannelRecordView {
            connection_id: self.connection_id@,
            channel_id: self.channel_id@,
            port_id: self.port_id@,
            counterparty_port_id: self.counterparty_port_id@,
            version: self.version@,
            order: self.order,
            state: self.state,
        }
    }
}

/// The records of the channels by connection.
pub type ChannelMap = Map<Seq<char>, ChannelRecordView>;

/// The record that a handshake step writes for `channel`.
pub open spec fn record_of(channel: ChannelView, state: ChannelState) -> ChannelRecordView {
    ChannelRecordView {
        connection_id: channel.connection_id,
        channel_id: channel.channel_id,
        port_id: channel.port_id,
        counterparty_port_id: channel.counterparty_port_id,
        version: channel.version,
        order: channel.order,
        state,
    }
}

impl ChannelRecord {
    /// The record that a handshake step writes for `channel`.
    pub fn of(channel: &Channel, state: ChannelState) -> (r: ChannelRecord)
        ensures
            r@ == record_of(channel@, state),
    {
        ChannelRecord {
            connection_id: channel.connection_id.clone(),
            channel_id: channel.channel_id.clone(),
            port_id: channel.port_id.clone(),
            counterparty_port_id: channel.counterparty_port_id.clone(),
            version: channel.version.clone(),
            order: channel.order,
            state,
        }
    }

    /// A copy of this record.
    pub fn duplicate(&self) -> (r: ChannelRecord)
        ensures
            r@ == self@,
    {
        ChannelRecord {
            connection_id: self.connection_id.clone(),
            channel_id: self.channel_id.clone(),
            port_id: self.port_id.clone(),
            counterparty_port_id: self.counterparty_port_id.clone(),
            version: self.version.clone(),
            order: self.order,
            state: self.state,
        }
    }
}

/// The value of an optional string.
pub open spec fn opt_view(s: Option<&String>) -> Option<Seq<char>> {
    match s {
        Some(s) => Some(s@),
        None => None,
    }
}

/// The first fault of a channel's order and versions, if any: the order is
/// looked at first, then the channel's version, then the counterparty's.
pub open spec fn validation(
    order: ChannelOrder,
    version: Seq<char>,
    counterparty_version: Option<Seq<char>>,
) -> Option<ErrorView> {
    if order != ChannelOrder::Ordered {
        Some(ErrorView::IncorrectOrder { actual: order, expected: ChannelOrder::Ordered })
    } else if version != version_spec() {
        Some(ErrorView::IncorrectVersion { actual: version, expected: version_spec() })
    } else if counterparty_version is Some && counterparty_version->0 != version_spec() {
        Some(
            ErrorView::IncorrectVersion {
                actual: counterparty_version->0,
                expected: version_spec(),
            },
        )
    } else {
        None
    }
}

/// Checks the order and the versions of a channel.
pub fn validate(order: ChannelOrder, version: &String, counterparty_version: Option<&String>) -> (r:
    Result<(), Error>)
    ensures
        match r {
            Ok(_) => validation(order, version@, opt_view(counterparty_version)) is None,
            Err(e) => validation(order, version@, opt_view(counterparty_version)) == Some(e@),
        },
{
    match order {
        ChannelOrder::Ordered => {},
        ChannelOrder::Unordered => {
            return Err(Error::IncorrectOrder { actual: order, expected: ChannelOrder::Ordered });
        },
    }
    let expected = protocol_version();
    if *version != expected {
        return Err(Error::IncorrectVersion { actual: version.clone(), expected });
    }
    match counterparty_version {
        Some(theirs) => {
            if *theirs != expected {
                return Err(Error::IncorrectVersion { actual: theirs.clone(), expected });
            }
        },
        None => {},
    }
    Ok(())
}

/// The connection carries an open channel.
pub open spec fn has_open_record(table: ChannelMap, connection_id: Seq<char>) -> bool {
    table.contains_key(connection_id) && table[connection_id].state == ChannelState::Open
}

/// Whether the connection is taken for a handshake that is to leave its
/// channel in `state`. A handshake that this end starts needs a connection
/// without any record. One that the other end started is only stopped by an
/// open channel: it replaces a record that is not open yet.
pub open spec fn connection_taken(
    table: ChannelMap,
    connection_id: Seq<char>,
    state: ChannelState,
) -> bool {
    table.contains_key(connection_id) && (state != ChannelState::TryOpen || has_open_record(
        table,
        connection_id,
    ))
}

/// What the start of a handshake does to the table of channels: the channel
/// must pass [`validation`], and its connection must not be taken, as
/// [`connection_taken`] says; then the channel is recorded in `state`, in
/// place of whatever record the connection had.
pub open spec fn open_spec(
    table: ChannelMap,
    channel: ChannelView,
    counterparty_version: Option<Seq<char>>,
    state: ChannelState,
) -> Result<ChannelMap, ErrorView> {
    match validation(channel.order, channel.version, counterparty_version) {
        Some(e) => Err(e),
        None => if connection_taken(table, channel.connection_id, state) {
            Err(ErrorView::ChannelExists { connection_id: channel.connection_id })
        } else {
            Ok(table.insert(channel.connection_id, record_of(channel, state)))
        },
    }
}

/// Once a handshake has started on a connection, from whichever end, this
/// end cannot start another on the same connection, well-formed as its
/// channel may be.
pub proof fn lemma_second_init_is_rejected(
    table: ChannelMap,
    first: ChannelView,
    first_version: Option<Seq<char>>,
    first_state: ChannelState,
    second: ChannelView,
)
    requires
        open_spec(table, first, first_version, first_state) is Ok,
        second.connection_id == first.connection_id,
        validation(second.order, second.version, None) is None,
    ensures
        open_spec(
            open_spec(table, first, first_version, first_state)->Ok_0,
            second,
            None,
            ChannelState::Init,
        ) == Err::<ChannelMap, ErrorView>(
            ErrorView::ChannelExists { connection_id: first.connection_id },
        ),
{
}

/// A connection with an open channel takes no new handshake from either
/// end, and a handshake never opens a channel: so the start of a handshake
/// leaves the open channels as they are.
pub proof fn lemma_open_channel_stops_every_start(
    table: ChannelMap,
    channel: ChannelView,
    counterparty_version: Option<Seq<char>>,
    state: ChannelState,
)
    requires
        state != ChannelState::Open,
        validation(channel.order, channel.version, counterparty_version) is None,
    ensures
        has_open_record(table, channel.connection_id) ==> open_spec(
            table,
            channel,
            counterparty_version,
            state,
        ) == Err::<ChannelMap, ErrorView>(
            ErrorView::ChannelExists { connection_id: channel.connection_id },
        ),
        open_spec(table, channel, counterparty_version, state) is Ok ==> (forall|c: Seq<char>|
            #[trigger] has_open_record(
                open_spec(table, channel, counterparty_version, state)->Ok_0,
                c,
            ) <==> has_open_record(table, c)),
{
}

/// A handshake that the other end started replaces a record that is not
/// open yet.
pub proof fn lemma_try_replaces_unopened_record(
    table: ChannelMap,
    channel: ChannelView,
    counterparty_version: Option<Seq<char>>,
)
    requires
        validation(channel.order, channel.version, counterparty_version) is None,
        table.contains_key(channel.connection_id),
        !has_open_record(table, channel.connection_id),
    ensures
        open_spec(table, channel, counterparty_version, ChannelState::TryOpen) == Ok::<
            ChannelMap,
            ErrorView,
        >(table.insert(channel.connection_id, record_of(channel, ChannelState::TryOpen))),
{
}

/// What the end of a handshake does to the table of channels: the
/// counterparty's version, where it is given, must be the expected one; the
/// connection must have a record of this very channel; and that record must
/// not be open yet.
pub open spec fn connect_spec(
    table: ChannelMap,
    channel: ChannelView,
    counterparty_version: Option<Seq<char>>,
) -> Result<ChannelMap, ErrorView> {
    if counterparty_version is Some && counterparty_version->0 != version_spec() {
        Err(
            ErrorView::IncorrectVersion {
                actual: counterparty_version->0,
                expected: version_spec(),
            },
        )
    } else if !table.contains_key(channel.connection_id) || table[channel.connection_id].port_id
        != channel.port_id || table[channel.connection_id].channel_id != channel.channel_id {
        Err(ErrorView::ChannelNotFound { port_id: channel.port_id, channel_id: channel.channel_id })
    } else if table[channel.connection_id].state == ChannelState::Open {
        Err(ErrorView::ChannelExists { connection_id: channel.connection_id })
    } else {
        Ok(
            table.insert(
                channel.connection_id,
                ChannelRecordView { state: ChannelState::Open, ..table[channel.connection_id] },
            ),
        )
    }
}

/// The record is that of the open channel `channel_id` at port `port_id`.
pub open spec fn is_open_at(
    record: ChannelRecordView,
    port_id: Seq<char>,
    channel_id: Seq<char>,
) -> bool {
    record.state == ChannelState::Open && record.port_id == port_id && record.channel_id
        == channel_id
}

/// Some connection carries the open channel `channel_id` at port `port_id`.
pub open spec fn has_open_channel(
    table: ChannelMap,
    port_id: Seq<char>,
    channel_id: Seq<char>,
) -> bool {
    exists|c: Seq<char>| #[trigger]
        table.contains_key(c) && is_open_at(table[c], port_id, channel_id)
}

/// An open channel: a connection and the channel that it carries.
#[derive(Clone, Debug, PartialEq, Eq)]
pub struct ActiveChannel {
    pub connection_id: String,
    pub channel_id: String,
}

impl View for ActiveChannel {
    type V = (Seq<char>, Seq<char>);

    open spec fn view(&self) -> (Seq<char>, Seq<char>) {
        (self.connection_id@, self.channel_id@)
    }
}

/// The open channels whose connection comes strictly after `start`, in
/// order; all of them where there is no `start`.
pub open spec fn after_connection(
    s: Seq<(Seq<char>, Seq<char>)>,
    start: Option<Seq<char>>,
) -> Seq<(Seq<char>, Seq<char>)> {
    match start {
        None => s,
        Some(c) => s.filter(|e: (Seq<char>, Seq<char>)| str_lt(c, e.0)),
    }
}

/// The table of channel records, one per connection at most.
#[derive(Debug)]
pub struct Channels {
    records: Table<ChannelRecord>,
    active: Table<String>,
}

impl Channels {
    /// The table is sound: a record is filed under its connection, and the
    /// index of open channels agrees with the records.
    pub closed spec fn wf(&self) -> bool {
        &&& self.records.wf()
        &&& self.active.wf()
        &&& forall|k: KeyView| #[trigger]
            self.records@.contains_key(k) ==> k.1 == Seq::<char>::empty()
                && self.records@[k].connection_id == k.0
        &&& forall|k: KeyView| #[trigger]
            self.active@.contains_key(k) <==> self.records@.contains_key(k)
                && self.records@[k].state == ChannelState::Open
        &&& forall|k: KeyView| #[trigger]
            self.active@.contains_key(k) ==> self.active@[k] == self.records@[k].channel_id
    }

    /// The records by connection.
    pub closed spec fn view(&self) -> ChannelMap {
        Map::new(
            |c: Seq<char>| self.records@.contains_key((c, Seq::<char>::empty())),
            |c: Seq<char>| self.records@[(c, Seq::<char>::empty())],
        )
    }

    /// The open channels, as pairs of connection and channel, in the order
    /// of their connections.
    pub closed spec fn active(&self) -> Seq<(Seq<char>, Seq<char>)> {
        self.active.entries().map_values(|e: (KeyView, Seq<char>)| (e.0.0, e.1))
    }

    /// A table without channels.
    pub fn new() -> (r: Channels)
        ensures
            r.wf(),
            r@ == ChannelMap::empty(),
            r.records() == Seq::<ChannelRecordView>::empty(),
            r.active() == Seq::<(Seq<char>, Seq<char>)>::empty(),
    {
        let r = Channels { records: Table::new(), active: Table::new() };
        assert(r@ =~= ChannelMap::empty());
        assert(r.records() =~= Seq::<ChannelRecordView>::empty());
        assert(r.active() =~= Seq::<(Seq<char>, Seq<char>)>::empty());
        r
    }

    /// The first step of a handshake, from either end: records the channel
    /// in `state`, unless its connection is taken.
    fn start(
        &mut self,
        channel: &Channel,
        counterparty_version: Option<&String>,
        state: ChannelState,
    ) -> (r: Result<(), Error>)
        requires
            old(self).wf(),
            state != ChannelState::Open,
        ensures
            final(self).wf(),
            match r {
                Ok(_) => open_spec(old(self)@, channel@, opt_view(counterparty_version), state)
                    == Ok::<ChannelMap, ErrorView>(final(self)@),
                Err(e) => open_spec(old(self)@, channel@, opt_view(counterparty_version), state)
                    == Err::<ChannelMap, ErrorView>(e@) && *final(self) == *old(self),
            },
            final(self).active() == old(self).active(),
    {
        match validate(channel.order, &channel.version, counterparty_version) {
            Err(e) => {
                return Err(e);
            },
            Ok(_) => {},
        }
        let key = Key::single(&channel.connection_id);
        let (i, found) = self.records.locate(&key);
        if found {
            proof {
                self.records.lemma_sorted();
                lemma_map_of_index(self.records.entries(), i as int);
            }
            let replace = match (state, self.records.value_at(i).state) {
                (ChannelState::TryOpen, ChannelState::Init) => true,
                (ChannelState::TryOpen, ChannelState::TryOpen) => true,
                _ => false,
            };
            if !replace {
                return Err(Error::ChannelExists { connection_id: channel.connection_id.clone() });
            }
            self.records.set_value(i, ChannelRecord::of(channel, state));
        } else {
            let added = self.records.insert(key, ChannelRecord::of(channel, state));
            assert(added);
        }
        assert(self@ =~= old(self)@.insert(channel.connection_id@, record_of(channel@, state)));
        Ok(())
    }

    /// The first step of a handshake that this end starts. Records the
    /// channel in state `Init`, and proposes no other version.
    pub fn open_init(&mut self, channel: &Channel) -> (r: Result<Option<String>, Error>)
        requires
            old(self).wf(),
        ensures
            final(self).wf(),
            match r {
                Ok(v) => v is None && open_spec(old(self)@, channel@, None, ChannelState::Init)
                    == Ok::<ChannelMap, ErrorView>(final(self)@),
                Err(e) => open_spec(old(self)@, channel@, None, ChannelState::Init) == Err::<
                    ChannelMap,
                    ErrorView,
                >(e@) && *final(self) == *old(self),
            },
            final(self).active() == old(self).active(),
    {
        match self.start(channel, None, ChannelState::Init) {
            Ok(_) => Ok(None),
            Err(e) => Err(e),
        }
    }

    /// The first step of a handshake that the other end started. Records the
    /// channel in state `TryOpen`, in place of a record that is not open
    /// yet if the connection has one, and answers with the protocol version.
    pub fn open_try(&mut self, channel: &Channel, counterparty_version: &String) -> (r: Result<
        Option<String>,
        Error,
    >)
        requires
            old(self).wf(),
        ensures
            final(self).wf(),
            match r {
                Ok(v) => v matches Some(s) && s@ == version_spec() && open_spec(
                    old(self)@,
                    channel@,
                    Some(counterparty_version@),
                    ChannelState::TryOpen,
                ) == Ok::<ChannelMap, ErrorView>(final(self)@),
                Err(e) => open_spec(
                    old(self)@,
                    channel@,
                    Some(counterparty_version@),
                    ChannelState::TryOpen,
                ) == Err::<ChannelMap, ErrorView>(e@) && *final(self) == *old(self),
            },
            final(self).active() == old(self).active(),
    {
        match self.start(channel, Some(counterparty_version), ChannelState::TryOpen) {
            Ok(_) => Ok(Some(protocol_version())),
            Err(e) => Err(e),
        }
    }
    /// The last step of a handshake. Opens the channel that the connection
    /// has on record.
    pub fn open_connect(&mut self, channel: &Channel, counterparty_version: Option<&String>) -> (r:
        Result<(), Error>)
        requires
            old(self).wf(),
        ensures
            final(self).wf(),
            match r {
                Ok(_) => connect_spec(old(self)@, channel@, opt_view(counterparty_version))
                    == Ok::<ChannelMap, ErrorView>(final(self)@),
                Err(e) => connect_spec(old(self)@, channel@, opt_view(counterparty_version))
                    == Err::<ChannelMap, ErrorView>(e@) && *final(self) == *old(self),
            },
    {
        match counterparty_version {
            Some(theirs) => {
                let expected = protocol_version();
                if *theirs != expected {
                    return Err(Error::IncorrectVersion { actual: theirs.clone(), expected });
                }
            },
            None => {},
        }
        let key = Key::single(&channel.connection_id);
        let (i, found) = self.records.locate(&key);
        if !found {
            return Err(
                Error::ChannelNotFound {
                    port_id: channel.port_id.clone(),
                    channel_id: channel.channel_id.clone(),
                },
            );
        }
        proof {
            self.records.lemma_sorted();
            lemma_map_of_index(self.records.entries(), i as int);
        }
        let record = self.records.value_at(i);
        if record.port_id != channel.port_id || record.channel_id != channel.channel_id {
            return Err(
                Error::ChannelNotFound {
                    port_id: channel.port_id.clone(),
                    channel_id: channel.channel_id.clone(),
                },
            );
        }
        match record.state {
            ChannelState::Open => {
                return Err(Error::ChannelExists { connection_id: channel.connection_id.clone() });
            },
            _ => {},
        }
        let mut opened = record.duplicate();
        opened.state = ChannelState::Open;
        self.records.set_value(i, opened);
        let added = self.active.insert(key, channel.channel_id.clone());
        assert(added);
        assert(self@ =~= old(self)@.insert(
            channel.connection_id@,
            ChannelRecordView { state: ChannelState::Open, ..old(self)@[channel.connection_id@] },
        ));
        Ok(())
    }

    /// An attempt to close a channel. Channels of this protocol stay open
    /// for good, so the attempt is refused and nothing changes.
    pub fn close(&self, channel: &Channel) -> (r: Result<(), Error>)
        ensures
            r matches Err(e) && e@ == ErrorView::UnexpectedChannelClosure,
    {
        Err(Error::UnexpectedChannelClosure)
    }

    /// All records, in the order of their connections.
    pub closed spec fn records(&self) -> Seq<ChannelRecordView> {
        self.records.entries().map_values(|e: (KeyView, ChannelRecordView)| e.1)
    }

    /// The list of records holds exactly the records of the table, each
    /// once, in the increasing order of their connections.
    pub proof fn lemma_records(&self)
        requires
            self.wf(),
        ensures
            forall|i: int|
                0 <= i < self.records().len() ==> {
                    let r = #[trigger] self.records()[i];
                    self@.contains_key(r.connection_id) && self@[r.connection_id] == r
                },
            forall|i: int, j: int|
                0 <= i < j < self.records().len() ==> str_lt(
                    (#[trigger] self.records()[i]).connection_id,
                    (#[trigger] self.records()[j]).connection_id,
                ),
            forall|c: Seq<char>| #[trigger]
                self@.contains_key(c) ==> self.records().contains(self@[c]),
    {
        let s = self.records.entries();
        let r = self.records();
        self.records.lemma_sorted();
        lemma_str_lt_irreflexive(Seq::<char>::empty());
        assert forall|i: int| 0 <= i < r.len() implies {
            let x = #[trigger] r[i];
            &&& self@.contains_key(x.connection_id)
            &&& self@[x.connection_id] == x
            &&& s[i].0 == (x.connection_id, Seq::<char>::empty())
        } by {
            lemma_map_of_index(s, i);
            assert(self.records@.contains_key(s[i].0));
        }
        assert forall|i: int, j: int| 0 <= i < j < r.len() implies str_lt(
            (#[trigger] r[i]).connection_id,
            (#[trigger] r[j]).connection_id,
        ) by {
            assert(key_lt(s[i].0, s[j].0));
        }
        assert forall|c: Seq<char>| #[trigger] self@.contains_key(c) implies r.contains(
            self@[c],
        ) by {
            let k = (c, Seq::<char>::empty());
            let j = choose|j: int| 0 <= j < s.len() && #[trigger] s[j].0 == k;
            lemma_map_of_index(s, j);
            assert(r[j] == self@[c]);
        }
    }

    /// A copy of all records, in the order of their connections.
    pub fn export(&self) -> (r: Vec<ChannelRecord>)
        requires
            self.wf(),
        ensures
            r@.map_values(|c: ChannelRecord| c@) == self.records(),
    {
        let n = self.records.len();
        let mut out: Vec<ChannelRecord> = Vec::new();
        let mut i: usize = 0;
        while i < n
            invariant
                self.wf(),
                n == self.records.entries().len(),
                i <= n,
                out@.len() == i,
                forall|j: int| 0 <= j < i ==> (#[trigger] out@[j])@ == self.records()[j],
            decreases n - i,
        {
            out.push(self.records.value_at(i).duplicate());
            i = i + 1;
        }
        assert(out@.map_values(|c: ChannelRecord| c@) =~= self.records());
        out
    }

    /// Puts back a record that was exported, in whatever state it is. The
    /// connection of the record must have no channel in the table.
    pub fn restore(&mut self, record: ChannelRecord) -> (r: Result<(), Error>)
        requires
            old(self).wf(),
        ensures
            final(self).wf(),
            match r {
                Ok(_) => !old(self)@.contains_key(record.connection_id@) && final(self)@ == old(
                    self,
                )@.insert(record.connection_id@, record@),
                Err(e) => old(self)@.contains_key(record.connection_id@) && *final(self) == *old(
                    self,
                ) && e@ == (ErrorView::ChannelExists { connection_id: record.connection_id@ }),
            },
    {
        let key = Key::single(&record.connection_id);
        if self.records.get(&key).is_some() {
            return Err(Error::ChannelExists { connection_id: record.connection_id.clone() });
        }
        let open = match record.state {
            ChannelState::Open => true,
            _ => false,
        };
        if open {
            let added = self.active.insert(
                Key::single(&record.connection_id),
                record.channel_id.clone(),
            );
            assert(added);
        }
        let ghost value = record@;
        let added = self.records.insert(key, record);
        assert(added);
        assert(self@ =~= old(self)@.insert(value.connection_id, value));
        Ok(())
    }

    /// The record of the channel of a connection, if it has one.
    pub fn record(&self, connection_id: &String) -> (r: Option<ChannelRecord>)
        requires
            self.wf(),
        ensures
            match r {
                Some(record) => self@.contains_key(connection_id@) && record@
                    == self@[connection_id@],
                None => !self@.contains_key(connection_id@),
            },
    {
        let key = Key::single(connection_id);
        match self.records.get(&key) {
            Some(record) => Some(record.duplicate()),
            None => None,
        }
    }

    /// Every record is filed under its own connection.
    pub proof fn lemma_filed_by_connection(&self)
        requires
            self.wf(),
        ensures
            forall|c: Seq<char>| #[trigger] self@.contains_key(c) ==> self@[c].connection_id == c,
    {
    }

    /// The open channel of a connection, if it has one.
    pub fn lookup_active_channel(&self, connection_id: &String) -> (r: Option<String>)
        requires
            self.wf(),
        ensures
            match r {
                Some(c) => self@.contains_key(connection_id@)
                    && self@[connection_id@].state == ChannelState::Open
                    && c@ == self@[connection_id@].channel_id,
                None => !self@.contains_key(connection_id@)
                    || self@[connection_id@].state != ChannelState::Open,
            },
    {
        let key = Key::single(connection_id);
        match self.active.get(&key) {
            Some(c) => Some(c.clone()),
            None => None,
        }
    }

    /// Whether the channel `channel_id` at port `port_id` is open.
    pub fn is_open(&self, port_id: &String, channel_id: &String) -> (r: bool)
        requires
            self.wf(),
        ensures
            r == has_open_channel(self@, port_id@, channel_id@),
    {
        let n = self.records.len();
        let mut i: usize = 0;
        proof {
            self.records.lemma_sorted();
        }
        while i < n
            invariant
                self.wf(),
                n == self.records.entries().len(),
                i <= n,
                sorted(self.records.entries()),
                forall|j: int| 0 <= j < i ==> !is_open_at(
                    (#[trigger] self.records.entries()[j]).1,
                    port_id@,
                    channel_id@,
                ),
            decreases n - i,
        {
            let record = self.records.value_at(i);
            let open = match record.state {
                ChannelState::Open => true,
                _ => false,
            };
            if open && record.port_id == *port_id && record.channel_id == *channel_id {
                proof {
                    let e = self.records.entries()[i as int];
                    lemma_map_of_index(self.records.entries(), i as int);
                    assert(self@.contains_key(e.0.0) && self@[e.0.0] == e.1);
                }
                return true;
            }
            i = i + 1;
        }
        proof {
            if has_open_channel(self@, port_id@, channel_id@) {
                let c = choose|c: Seq<char>| #[trigger]
                    self@.contains_key(c) && is_open_at(self@[c], port_id@, channel_id@);
                let k = (c, Seq::<char>::empty());
                let s = self.records.entries();
                let j = choose|j: int| 0 <= j < s.len() && #[trigger] s[j].0 == k;
                lemma_map_of_index(s, j);
            }
        }
        false
    }

    /// One page of the open channels, in the order of their connections:
    /// those whose connection comes strictly after `start_after`, `limit` of
    /// them at most.
    pub fn list_active(&self, start_after: Option<&String>, limit: usize) -> (r: Vec<ActiveChannel>)
        requires
            self.wf(),
        ensures
            r@.map_values(|a: ActiveChannel| a@) == page(
                after_connection(self.active(), opt_view(start_after)),
                limit as nat,
            ),
    {
        let (lo, hi) = match start_after {
            Some(c) => {
                let key = Key::single(c);
                self.active.range_after(Some(&key), limit)
            },
            None => self.active.range_after(None, limit),
        };
        proof {
            let s = self.active.entries();
            let a = self.active();
            self.active.lemma_sorted();
            match start_after {
                Some(c) => {
                    let p = |e: (Seq<char>, Seq<char>)| str_lt(c@, e.0);
                    lemma_str_lt_irreflexive(Seq::<char>::empty());
                    assert forall|j: int| lo <= j < a.len() implies p(#[trigger] a[j]) by {
                        lemma_map_of_index(s, j);
                        assert(self.active@.contains_key(s[j].0));
                    }
                    assert forall|j: int| 0 <= j < lo implies !p(#[trigger] a[j]) by {
                        assert(a[j].0 == s[j].0.0);
                    }
                    lemma_filter_suffix(a, p, lo as int);
                    let rest = a.subrange(lo as int, a.len() as int);
                    assert(rest.subrange(0, hi - lo) =~= a.subrange(lo as int, hi as int));
                    assert(rest.subrange(0, rest.len() as int) =~= rest);
                },
                None => {
                    assert(a.subrange(0, a.len() as int) =~= a);
                },
            }
        }
        let mut out: Vec<ActiveChannel> = Vec::new();
        let mut i: usize = lo;
        while i < hi
            invariant
                self.wf(),
                lo <= i <= hi <= self.active.entries().len(),
                out@.map_values(|a: ActiveChannel| a@) == self.active().subrange(
                    lo as int,
                    i as int,
                ),
            decreases hi - i,
        {
            let ghost before = out@;
            let item = ActiveChannel {
                connection_id: self.active.key_at(i).head.clone(),
                channel_id: self.active.value_at(i).clone(),
            };
            out.push(item);
            i = i + 1;
            assert(out@.map_values(|a: ActiveChannel| a@) =~= before.map_values(
                |a: ActiveChannel| a@,
            ).push(item@));
            assert(out@.map_values(|a: ActiveChannel| a@) =~= self.active().subrange(
                lo as int,
                i as int,
            ));
        }
        out
    }

    /// No connection has two open channels: the list of open channels names
    /// each connection once, in increasing order, and holds exactly the
    /// channels whose record is in state `Open`.
    pub proof fn lemma_one_open_channel_per_connection(&self)
        requires
            self.wf(),
        ensures
            forall|i: int, j: int|
                0 <= i < j < self.active().len() ==> str_lt(
                    (#[trigger] self.active()[i]).0,
                    (#[trigger] self.active()[j]).0,
                ),
            forall|i: int, j: int|
                0 <= i < self.active().len() && 0 <= j < self.active().len()
                    && (#[trigger] self.active()[i]).0 == (#[trigger] self.active()[j]).0 ==> i
                    == j,
            forall|i: int|
                0 <= i < self.active().len() ==> {
                    let e = #[trigger] self.active()[i];
                    &&& self@.contains_key(e.0)
                    &&& self@[e.0].state == ChannelState::Open
                    &&& self@[e.0].channel_id == e.1
                },
            forall|c: Seq<char>|
                #[trigger] self@.contains_key(c) && self@[c].state == ChannelState::Open
                    ==> self.active().contains((c, self@[c].channel_id)),
    {
        let s = self.active.entries();
        let a = self.active();
        self.active.lemma_sorted();
        lemma_str_lt_irreflexive(Seq::<char>::empty());
        assert forall|i: int| 0 <= i < a.len() implies {
            let e = #[trigger] a[i];
            &&& self@.contains_key(e.0)
            &&& self@[e.0].state == ChannelState::Open
            &&& self@[e.0].channel_id == e.1
            &&& s[i].0 == (e.0, Seq::<char>::empty())
        } by {
            lemma_map_of_index(s, i);
            assert(self.active@.contains_key(s[i].0));
        }
        assert forall|i: int, j: int| 0 <= i < j < a.len() implies str_lt(
            (#[trigger] a[i]).0,
            (#[trigger] a[j]).0,
        ) by {
            assert(key_lt(s[i].0, s[j].0));
        }
        assert forall|i: int, j: int|
            0 <= i < a.len() && 0 <= j < a.len() && (#[trigger] a[i]).0 == (#[trigger] a[j]).0
            implies i == j by {
            lemma_str_lt_irreflexive(a[i].0);
            if i < j {
                assert(str_lt(a[i].0, a[j].0));
            } else if j < i {
                assert(str_lt(a[j].0, a[i].0));
            }
        }
        assert forall|c: Seq<char>|
            #[trigger] self@.contains_key(c) && self@[c].state == ChannelState::Open
            implies a.contains((c, self@[c].channel_id)) by {
            let k = (c, Seq::<char>::empty());
            assert(self.active@.contains_key(k));
            let j = choose|j: int| 0 <= j < s.len() && #[trigger] s[j].0 == k;
            lemma_map_of_index(s, j);
            assert(a[j] == (c, self@[c].channel_id));
        }
    }
}

} // verus!
