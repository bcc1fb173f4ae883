//! The errors of the contract.

use vstd::prelude::*;
use crate::coin::{Coins, CoinView};

verus! {

/// `cosmwasm_std::StdError`, carried as it comes.
#[verifier::external_type_specification]
#[verifier::external_body]
pub struct ExStdError(cosmwasm_std::StdError);

/// `cosmwasm_std::OverflowError`, carried as it comes.
#[verifier::external_type_specification]
#[verifier::external_body]
pub struct ExOverflowError(cosmwasm_std::OverflowError);

/// `cosmwasm_std::SystemError`, carried as it comes.
#[verifier::external_type_specification]
#[verifier::external_body]
pub struct ExSystemError(cosmwasm_std::SystemError);

/// `cw_utils::PaymentError`, carried as it comes.
#[verifier::external_type_specification]
#[verifier::external_body]
pub struct ExPaymentError(cw_utils::PaymentError);

/// `cw_utils::ParseReplyError`, carried as it comes.
#[verifier::external_type_specification]
#[verifier::external_body]
pub struct ExParseReplyError(cw_utils::ParseReplyError);

/// Why no address can be derived for an account.
#[derive(Clone, Copy, Debug, PartialEq, Eq, Structural)]
pub enum AddressError {
    /// The code checksum is not 32 bytes long.
    InvalidChecksumLength,
    /// The salt is empty or longer than 64 bytes.
    InvalidSaltLength,
}

/// The ordering guarantee of a channel.
#[derive(Clone, Copy, Debug, PartialEq, Eq, Structural)]
pub enum ChannelOrder {
    Unordered,
    Ordered,
}

/// Every way in which an entry point of the contract can fail.
#[derive(Debug, PartialEq)]
#[allow(inconsistent_fields)]
pub enum Error {
    /// A failure of the state store.
    Std(cosmwasm_std::StdError),
    /// An arithmetic overflow.
    Overflow(cosmwasm_std::OverflowError),
    /// No address can be derived for an account.
    Instantiate2Address(AddressError),
    /// The funds sent with a message are not acceptable.
    Payment(cw_utils::PaymentError),
    /// The reply of a sub-message cannot be parsed.
    ParseReply(cw_utils::ParseReplyError),
    /// A query failed in the host.
    QuerySystem(cosmwasm_std::SystemError),
    /// A query failed in the queried contract.
    QueryContract(String),
    /// A packet carries no action.
    EmptyActionQueue,
    /// The account factory replied without instantiate data.
    FactoryResponseDataMissing,
    /// Creating a voucher token would cost a fee.
    NonZeroTokenCreationFee,
    /// The caller may not do what it asks for.
    Unauthorized,
    /// Somebody tried to close a channel.
    UnexpectedChannelClosure,
    /// A voucher denomination has no trace, or the trace of another origin.
    TraceNotFound { denom: String },
    /// The funds declared for a transfer are not what the transfer specifies.
    FundsMismatch { actual: Coins, expected: Coins },
    /// A channel is not ordered.
    IncorrectOrder { actual: ChannelOrder, expected: ChannelOrder },
    /// A channel, or its other end, does not speak the protocol's version.
    IncorrectVersion { actual: String, expected: String },
    /// The connection already has a channel.
    ChannelExists { connection_id: String },
    /// No open channel is where one is looked for.
    ChannelNotFound { port_id: String, channel_id: String },
    /// The controller has an account on the channel already.
    AccountExists { channel_id: String, controller: String },
    /// The controller has no account on the channel.
    AccountNotFound { channel_id: String, controller: String },
}

/// The mathematical value of an [`Error`].
#[allow(inconsistent_fields)]
pub enum ErrorView {
    Std(cosmwasm_std::StdError),
    Overflow(cosmwasm_std::OverflowError),
    Instantiate2Address(AddressError),
    Payment(cw_utils::PaymentError),
    ParseReply(cw_utils::ParseReplyError),
    QuerySystem(cosmwasm_std::SystemError),
    QueryContract(Seq<char>),
    EmptyActionQueue,
    FactoryResponseDataMissing,
    NonZeroTokenCreationFee,
    Unauthorized,
    UnexpectedChannelClosure,
    TraceNotFound { denom: Seq<char> },
    FundsMismatch { actual: Seq<CoinView>, expected: Seq<CoinView> },
    IncorrectOrder { actual: ChannelOrder, expected: ChannelOrder },
    IncorrectVersion { actual: Seq<char>, expected: Seq<char> },
    ChannelExists { connection_id: Seq<char> },
    ChannelNotFound { port_id: Seq<char>, channel_id: Seq<char> },
    AccountExists { channel_id: Seq<char>, controller: Seq<char> },
    AccountNotFound { channel_id: Seq<char>, controller: Seq<char> },
}

impl View for Error {
    type V = ErrorView;

    open spec fn view(&self) -> ErrorView {
        match *self {
            Error::Std(e) => ErrorView::Std(e),
            Error::Overflow(e) => ErrorView::Overflow(e),
            Error::Instantiate2Address(e) => ErrorView::Instantiate2Address(e),
            Error::Payment(e) => ErrorView::Payment(e),
            Error::ParseReply(e) => ErrorView::ParseReply(e),
            Error::QuerySystem(e) => ErrorView::QuerySystem(e),
            Error::QueryContract(m) => ErrorView::QueryContract(m@),
            Error::EmptyActionQueue => ErrorView::EmptyActionQueue,
            Error::FactoryResponseDataMissing => ErrorView::FactoryResponseDataMissing,
            Error::NonZeroTokenCreationFee => ErrorView::NonZeroTokenCreationFee,
            Error::Unauthorized => ErrorView::Unauthorized,
            Error::UnexpectedChannelClosure => ErrorView::UnexpectedChannelClosure,
            Error::TraceNotFound { denom } => ErrorView::TraceNotFound { denom: denom@ },
            Error::FundsMismatch { actual, expected } => ErrorView::FundsMismatch {
                actual: actual@,
                expected: expected@,
            },
            Error::IncorrectOrder { actual, expected } => ErrorView::IncorrectOrder {
                actual,
                expected,
            },
            Error::IncorrectVersion { actual, expected } => ErrorView::IncorrectVersion {
                actual: actual@,
                expected: expected@,
            },
            Error::ChannelExists { connection_id } => ErrorView::ChannelExists {
                connection_id: connection_id@,
            },
            Error::ChannelNotFound { port_id, channel_id } => ErrorView::ChannelNotFound {
                port_id: port_id@,
                channel_id: channel_id@,
            },
            Error::AccountExists { channel_id, controller } => ErrorView::AccountExists {
                channel_id: channel_id@,
                controller: controller@,
            },
            Error::AccountNotFound { channel_id, controller } => ErrorView::AccountNotFound {
                channel_id: channel_id@,
                controller: controller@,
            },
        }
    }
}

} // verus!
