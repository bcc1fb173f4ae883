//! The queries: what the contract tells of its state.

use vstd::prelude::*;
use crate::channel::{after_connection, ActiveChannel, ChannelMap, ChannelState, Channels};
use crate::error::{Error, ErrorView};
use crate::registry::{AccountEntry, AccountEntryView, AccountMap};
use crate::state::{Config, State};
use crate::table::{after, page, KeyView};

verus! {

/// The key of an account entry.
#[derive(Clone, Debug, PartialEq, Eq)]
pub struct AccountKey {
    pub channel_id: String,
    pub controller: String,
}

impl View for AccountKey {
    type V = KeyView;

    open spec fn view(&self) -> KeyView {
        (self.channel_id@, self.controller@)
    }
}

/// What can be asked of the contract.
#[derive(Clone, Debug, PartialEq, Eq)]
#[allow(inconsistent_fields)]
pub enum QueryMsg {
    /// How listings are paged.
    Config {  },
    /// The account that `controller` has on the open channel of a connection.
    Account { connection_id: String, controller: String },
    /// One page of all accounts.
    Accounts { start_after: Option<AccountKey>, limit: Option<u32> },
    /// The open channel of a connection.
    ActiveChannel { connection_id: String },
    /// One page of all open channels.
    ActiveChannels { start_after: Option<String>, limit: Option<u32> },
}

/// The answer to a query, one case for each question.
#[derive(Clone, Debug, PartialEq, Eq)]
pub enum QueryResponse {
    Config(Config),
    Account(AccountEntry),
    Accounts(Vec<AccountEntry>),
    ActiveChannel(ActiveChannel),
    ActiveChannels(Vec<ActiveChannel>),
}

/// The length of a page: what the query asks for, or the default where it
/// asks for nothing, and never more than the maximum.
pub open spec fn limit_spec(config: Config, limit: Option<u32>) -> nat {
    let asked = match limit {
        Some(n) => n,
        None => config.default_limit,
    };
    if asked > config.max_limit {
        config.max_limit as nat
    } else {
        asked as nat
    }
}

/// The length of a page.
pub fn effective_limit(config: &Config, limit: Option<u32>) -> (r: usize)
    ensures
        r == limit_spec(*config, limit),
{
    let asked = match limit {
        Some(n) => n,
        None => config.default_limit,
    };
    if asked > config.max_limit {
        config.max_limit as usize
    } else {
        asked as usize
    }
}

/// The open channel of a connection. Where the connection has none, the
/// error names the port and the channel of the record that is not open yet,
/// and names nothing where there is no record.
pub open spec fn resolve_spec(
    channels: ChannelMap,
    connection_id: Seq<char>,
) -> Result<Seq<char>, ErrorView> {
    if !channels.contains_key(connection_id) {
        Err(
            ErrorView::ChannelNotFound {
                port_id: Seq::<char>::empty(),
                channel_id: Seq::<char>::empty(),
            },
        )
    } else if channels[connection_id].state != ChannelState::Open {
        Err(
            ErrorView::ChannelNotFound {
                port_id: channels[connection_id].port_id,
                channel_id: channels[connection_id].channel_id,
            },
        )
    } else {
        Ok(channels[connection_id].channel_id)
    }
}

/// The account of `controller` on the open channel of a connection.
pub open spec fn account_spec(
    channels: ChannelMap,
    accounts: AccountMap,
    connection_id: Seq<char>,
    controller: Seq<char>,
) -> Result<AccountEntryView, ErrorView> {
    match resolve_spec(channels, connection_id) {
        Err(e) => Err(e),
        Ok(channel_id) => if accounts.contains_key((channel_id, controller)) {
            Ok(((channel_id, controller), accounts[(channel_id, controller)]))
        } else {
            Err(ErrorView::AccountNotFound { channel_id, controller })
        },
    }
}

/// The value of an optional account key.
pub open spec fn opt_account_key_view(k: Option<AccountKey>) -> Option<KeyView> {
    match k {
        Some(k) => Some(k@),
        None => None,
    }
}

/// The value of an optional string.
pub open spec fn opt_string_view(s: Option<String>) -> Option<Seq<char>> {
    match s {
        Some(s) => Some(s@),
        None => None,
    }
}

/// The open channel of a connection.
pub fn resolve_channel(channels: &Channels, connection_id: &String) -> (r: Result<String, Error>)
    requires
        channels.wf(),
    ensures
        match r {
            Ok(c) => resolve_spec(channels@, connection_id@) == Ok::<Seq<char>, ErrorView>(c@),
            Err(e) => resolve_spec(channels@, connection_id@) == Err::<Seq<char>, ErrorView>(e@),
        },
{
    match channels.record(connection_id) {
        None => Err(Error::ChannelNotFound { port_id: String::new(), channel_id: String::new() }),
        Some(record) => match record.state {
            ChannelState::Open => Ok(record.channel_id),
            _ => Err(
                Error::ChannelNotFound { port_id: record.port_id, channel_id: record.channel_id },
            ),
        },
    }
}

/// How listings are paged.
pub fn config(state: &State) -> (r: Config)
    ensures
        r == state.config,
{
    state.config
}

/// The account that `controller` has on the open channel of a connection.
pub fn account(state: &State, connection_id: &String, controller: &String) -> (r: Result<
    AccountEntry,
    Error,
>)
    requires
        state.wf(),
    ensures
        match r {
            Ok(entry) => account_spec(state.channels@, state.accounts@, connection_id@, controller@)
                == Ok::<AccountEntryView, ErrorView>(entry@),
            Err(e) => account_spec(state.channels@, state.accounts@, connection_id@, controller@)
                == Err::<AccountEntryView, ErrorView>(e@),
        },
{
    let channel_id = match resolve_channel(&state.channels, connection_id) {
        Ok(channel_id) => channel_id,
        Err(e) => {
            return Err(e);
        },
    };
    match state.accounts.lookup_by_controller(&channel_id, controller) {
        Some(address) => Ok(AccountEntry { channel_id, controller: controller.clone(), address }),
        None => Err(Error::AccountNotFound { channel_id, controller: controller.clone() }),
    }
}

/// One page of the accounts, by channel and then by controller.
pub fn accounts(state: &State, start_after: &Option<AccountKey>, limit: Option<u32>) -> (r: Vec<
    AccountEntry,
>)
    requires
        state.wf(),
    ensures
        r@.map_values(|e: AccountEntry| e@) == page(
            after(state.accounts.entries(), opt_account_key_view(*start_after)),
            limit_spec(state.config, limit),
        ),
{
    let limit = effective_limit(&state.config, limit);
    match start_after {
        Some(key) => state.accounts.list(Some((&key.channel_id, &key.controller)), limit),
        None => state.accounts.list(None, limit),
    }
}

/// The open channel of a connection.
pub fn active_channel(state: &State, connection_id: &String) -> (r: Result<ActiveChannel, Error>)
    requires
        state.wf(),
    ensures
        match r {
            Ok(found) => found.connection_id@ == connection_id@ && resolve_spec(
                state.channels@,
                connection_id@,
            ) == Ok::<Seq<char>, ErrorView>(found.channel_id@),
            Err(e) => resolve_spec(state.channels@, connection_id@) == Err::<
                Seq<char>,
                ErrorView,
            >(e@),
        },
{
    match resolve_channel(&state.channels, connection_id) {
        Ok(channel_id) => Ok(ActiveChannel { connection_id: connection_id.clone(), channel_id }),
        Err(e) => Err(e),
    }
}

/// One page of the open channels, by connection.
pub fn active_channels(state: &State, start_after: &Option<String>, limit: Option<u32>) -> (r: Vec<
    ActiveChannel,
>)
    requires
        state.wf(),
    ensures
        r@.map_values(|a: ActiveChannel| a@) == page(
            after_connection(state.channels.active(), opt_string_view(*start_after)),
            limit_spec(state.config, limit),
        ),
{
    let limit = effective_limit(&state.config, limit);
    match start_after {
        Some(connection_id) => state.channels.list_active(Some(connection_id), limit),
        None => state.channels.list_active(None, limit),
    }
}

/// What the answer to a query is.
pub open spec fn query_post(state: State, msg: QueryMsg, r: Result<QueryResponse, Error>) -> bool {
    match msg {
        QueryMsg::Config {  } => r matches Ok(QueryResponse::Config(c)) && c == state.config,
        QueryMsg::Account { connection_id, controller } => match account_spec(
            state.channels@,
            state.accounts@,
            connection_id@,
            controller@,
        ) {
            Ok(entry) => r matches Ok(QueryResponse::Account(found)) && found@ == entry,
            Err(fault) => r matches Err(e) && e@ == fault,
        },
        QueryMsg::Accounts { start_after, limit } => r matches Ok(QueryResponse::Accounts(list))
            && list@.map_values(|e: AccountEntry| e@) == page(
            after(state.accounts.entries(), opt_account_key_view(start_after)),
            limit_spec(state.config, limit),
        ),
        QueryMsg::ActiveChannel { connection_id } => match resolve_spec(
            state.channels@,
            connection_id@,
        ) {
            Ok(channel_id) => r matches Ok(QueryResponse::ActiveChannel(found)) && found@ == (
                connection_id@,
                channel_id,
            ),
            Err(fault) => r matches Err(e) && e@ == fault,
        },
        QueryMsg::ActiveChannels { start_after, limit } => r matches Ok(
            QueryResponse::ActiveChannels(list),
        ) && list@.map_values(|a: ActiveChannel| a@) == page(
            after_connection(state.channels.active(), opt_string_view(start_after)),
            limit_spec(state.config, limit),
        ),
    }
}

} // verus!
