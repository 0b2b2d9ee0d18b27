//! The wager coordinator and the outcome resolver.
//!
//! The coordinator validates the attached deposit and constructs the
//! outbound execution request together with the continuation state (the
//! player and the chosen side). The resolver is the continuation: it is
//! handed that state back along with the three-way result of the remote
//! call, and either produces the final win/lose message or reports a
//! fatal failure.

use vstd::prelude::*;

verus! {

use vstd::string::StringExecFns;

use crate::codec::{serialize_range_request, spec_range_request_json};
use crate::types::{CoinSide, RandomResponse};

/// The minimum attached deposit, in the smallest currency unit: it pays
/// for the remote execution.
pub const MIN_DEPOSIT: u128 = 10_000_000_000_000_000_000_000;

/// The fixed execution budget reserved for the continuation.
pub const CALLBACK_GAS: u64 = 5_000_000_000_000;

/// Where the remote service fetches the code it runs.
pub struct CodeSource {
    pub repo: String,
    pub commit: String,
    pub build_target: String,
}

/// The resource ceilings handed to the remote service.
#[derive(Clone, Copy, Debug, PartialEq, Eq, Structural)]
pub struct ResourceLimits {
    pub max_instructions: u64,
    pub max_memory_mb: u32,
    pub max_execution_seconds: u64,
}

/// One outbound request to the remote compute service.
pub struct ExecutionRequest {
    /// The account the request is sent to.
    pub receiver: String,
    /// The whole attached deposit, forwarded to pay for the execution.
    pub attached_deposit: u128,
    pub code_source: CodeSource,
    pub resource_limits: ResourceLimits,
    /// The input payload: the serialized range request.
    pub input_data: Vec<u8>,
    /// A reference to secrets the remote code may need; never used here.
    pub secrets_ref: Option<String>,
    /// The response format the remote service is asked for.
    pub response_format: String,
    /// Unused payment is refunded to this account, not to the
    /// coordinating contract.
    pub payer_account_id: Option<String>,
    /// The whole remaining execution budget goes to the remote call.
    pub unused_gas_weight: u64,
    /// The fixed budget reserved for the continuation.
    pub callback_gas: u64,
}

/// The closure state carried to the continuation: who played, and what
/// they chose.
pub struct PendingWager {
    pub player: String,
    pub choice: CoinSide,
}

/// A validated wager: the request to send, and the continuation state.
pub struct FlipRequest {
    pub request: ExecutionRequest,
    pub wager: PendingWager,
}

/// The one synchronous failure: the wager was rejected before any
/// request was sent.
#[derive(Clone, Copy, Debug, PartialEq, Eq, Structural)]
pub enum FlipError {
    /// The attached deposit is below the minimum.
    InsufficientDeposit,
}

impl FlipError {
    /// The message the failed call reports.
    pub fn message(&self) -> (m: String)
        ensures
            m@ == "Minimum deposit is 0.01 NEAR to pay for OutLayer execution"@,
    {
        "Minimum deposit is 0.01 NEAR to pay for OutLayer execution".to_owned()
    }
}

/// A failure of the asynchronous call mechanism itself, delivered to the
/// continuation in place of a result.
#[derive(Clone, Copy, Debug, PartialEq, Eq, Structural)]
pub enum PromiseError {
    /// The remote call failed.
    Failed,
    /// The remote call succeeded but its result was too long to read
    /// back.
    TooLong,
}

/// The fatal outcomes of the continuation.
#[derive(Clone, Copy, Debug, PartialEq, Eq, Structural)]
pub enum ResolveError {
    /// The remote execution ran but produced no usable answer.
    ExecutionFailed,
    /// The asynchronous call mechanism itself failed; not expected in
    /// normal operation.
    SystemError(PromiseError),
}

/// The message a fatal continuation outcome reports.
pub open spec fn spec_resolve_error_message(e: ResolveError) -> Seq<char> {
    match e {
        ResolveError::ExecutionFailed => "OutLayer execution failed"@,
        ResolveError::SystemError(PromiseError::Failed) => "Promise system error: Failed"@,
        ResolveError::SystemError(PromiseError::TooLong) => (
        "Promise system error: result too long"@),
    }
}

impl ResolveError {
    /// The message the terminated call reports.
    pub fn message(&self) -> (m: String)
        ensures
            m@ == spec_resolve_error_message(*self),
    {
        match self {
            ResolveError::ExecutionFailed => "OutLayer execution failed".to_owned(),
            ResolveError::SystemError(PromiseError::Failed) => (
            "Promise system error: Failed".to_owned()),
            ResolveError::SystemError(PromiseError::TooLong) => (
            "Promise system error: result too long".to_owned()),
        }
    }
}

/// Maps a raw random number onto a coin side: zero is Heads, anything
/// else is Tails.
pub open spec fn spec_side_of(random_number: u32) -> CoinSide {
    if random_number == 0 {
        CoinSide::Heads
    } else {
        CoinSide::Tails
    }
}

/// Resolves a raw random number to the coin side it encodes.
pub fn side_of(random_number: u32) -> (side: CoinSide)
    ensures
        side == spec_side_of(random_number),
        side == CoinSide::Heads <==> random_number == 0,
        side == CoinSide::Tails <==> random_number != 0,
{
    if random_number == 0 {
        CoinSide::Heads
    } else {
        CoinSide::Tails
    }
}

/// The display name of a coin side.
pub open spec fn spec_side_label(side: CoinSide) -> Seq<char> {
    match side {
        CoinSide::Heads => "Heads"@,
        CoinSide::Tails => "Tails"@,
    }
}

/// The display name of a coin side.
pub fn side_label(side: CoinSide) -> (r: &'static str)
    ensures
        r@ == spec_side_label(side),
{
    match side {
        CoinSide::Heads => "Heads",
        CoinSide::Tails => "Tails",
    }
}

/// The message reported when the player's choice equals the resolved
/// side.
pub open spec fn spec_win_message(result_side: CoinSide, choice: CoinSide) -> Seq<char> {
    "\u{1F389} Congratulations! You won! Result: "@ + spec_side_label(result_side)
        + ", Your choice: "@ + spec_side_label(choice)
}

/// The message reported when the player's choice differs from the
/// resolved side.
pub open spec fn spec_lose_message(result_side: CoinSide, choice: CoinSide) -> Seq<char> {
    "\u{1F622} Sorry, you lost. Result: "@ + spec_side_label(result_side) + ", Your choice: "@
        + spec_side_label(choice) + ". Better luck next time!"@
}

/// The final message of a wager whose remote draw was `random_number`:
/// the win message exactly when the choice equals the resolved side, the
/// lose message otherwise.
pub open spec fn spec_outcome_message(choice: CoinSide, random_number: u32) -> Seq<char> {
    if choice == spec_side_of(random_number) {
        spec_win_message(spec_side_of(random_number), choice)
    } else {
        spec_lose_message(spec_side_of(random_number), choice)
    }
}

/// No win message is ever a lose message: whatever sides and choices the
/// two speak of, the message families are disjoint, so the outcome
/// message indicates a win or a loss unambiguously.
pub proof fn lemma_win_lose_messages_differ(
    s1: CoinSide,
    c1: CoinSide,
    s2: CoinSide,
    c2: CoinSide,
)
    ensures
        spec_win_message(s1, c1) != spec_lose_message(s2, c2),
{
    reveal_strlit("\u{1F389} Congratulations! You won! Result: ");
    reveal_strlit("\u{1F622} Sorry, you lost. Result: ");
    assert(spec_win_message(s1, c1)[0] == '\u{1F389}');
    assert(spec_lose_message(s2, c2)[0] == '\u{1F622}');
}

/// Builds the final message of a wager from the player's choice and the
/// remote draw.
pub fn outcome_message(choice: CoinSide, random_number: u32) -> (m: String)
    ensures
        m@ == spec_outcome_message(choice, random_number),
{
    let result_side = side_of(random_number);
    if choice == result_side {
        let mut m = "\u{1F389} Congratulations! You won! Result: ".to_owned();
        m.append(side_label(result_side));
        m.append(", Your choice: ");
        m.append(side_label(choice));
        m
    } else {
        let mut m = "\u{1F622} Sorry, you lost. Result: ".to_owned();
        m.append(side_label(result_side));
        m.append(", Your choice: ");
        m.append(side_label(choice));
        m.append(". Better luck next time!");
        m
    }
}

/// The coin-flip wager contract. It keeps no state of its own: every
/// wager lives only in the closure state of its continuation.
#[derive(PartialEq, Eq, Structural)]
pub struct CoinFlipContract {}

impl CoinFlipContract {
    /// Initializes the contract.
    pub fn new() -> (c: Self)
        ensures
            c == (CoinFlipContract {  }),
    {
        Self {  }
    }

    /// Validates a wager and constructs the outbound execution request.
    ///
    /// A deposit below the minimum is rejected synchronously and nothing
    /// is sent. Otherwise the whole deposit is forwarded, the remote
    /// service is asked for a random number in `[0, 1]` as JSON, refunds
    /// are directed to the player, all remaining execution budget goes
    /// to the remote call with a fixed budget reserved for the
    /// continuation, and the player and choice are recorded as the
    /// continuation's closure state.
    pub fn flip_coin(&mut self, player: String, choice: CoinSide, attached_deposit: u128) -> (r:
        Result<FlipRequest, FlipError>)
        ensures
            *final(self) == *old(self),
            r is Ok <==> attached_deposit >= MIN_DEPOSIT,
            r is Err <==> attached_deposit < MIN_DEPOSIT,
            r matches Err(e) ==> e == FlipError::InsufficientDeposit,
            r matches Ok(flip) ==> ({
                &&& flip.wager.player@ == player@
                &&& flip.wager.choice == choice
                &&& flip.request.receiver@ == "outlayer.near"@
                &&& flip.request.attached_deposit == attached_deposit
                &&& flip.request.code_source.repo@ == "https://github.com/zavodil/random-ark"@
                &&& flip.request.code_source.commit@ == "main"@
                &&& flip.request.code_source.build_target@ == "wasm32-wasip1"@
                &&& flip.request.resource_limits == (ResourceLimits {
                    max_instructions: 10_000_000_000u64,
                    max_memory_mb: 128u32,
                    max_execution_seconds: 60u64,
                })
                &&& flip.request.input_data@ == spec_range_request_json(0, 1)
                &&& flip.request.secrets_ref is None
                &&& flip.request.response_format@ == "Json"@
                &&& flip.request.payer_account_id matches Some(p) && p@ == player@
                &&& flip.request.unused_gas_weight == 1
                &&& flip.request.callback_gas == CALLBACK_GAS
            }),
    {
        if attached_deposit < MIN_DEPOSIT {
            return Err(FlipError::InsufficientDeposit);
        }
        let request = ExecutionRequest {
            receiver: "outlayer.near".to_owned(),
            attached_deposit,
            code_source: CodeSource {
                repo: "https://github.com/zavodil/random-ark".to_owned(),
                commit: "main".to_owned(),
                build_target: "wasm32-wasip1".to_owned(),
            },
            resource_limits: ResourceLimits {
                max_instructions: 10_000_000_000,
                max_memory_mb: 128,
                max_execution_seconds: 60,
            },
            input_data: serialize_range_request(0, 1),
            secrets_ref: None,
            response_format: "Json".to_owned(),
            payer_account_id: Some(player.clone()),
            unused_gas_weight: 1,
            callback_gas: CALLBACK_GAS,
        };
        Ok(FlipRequest { request, wager: PendingWager { player, choice } })
    }

    /// Resolves a wager from the three-way result of the remote call.
    ///
    /// A structured result is mapped to a side and compared with the
    /// player's original choice, yielding the final message. An empty
    /// success means the remote execution failed; an error means the
    /// call mechanism itself failed. Both are fatal, with distinct
    /// messages, and the forwarded deposit is not returned here.
    #[allow(unused_variables)]
    pub fn on_random_result(
        &mut self,
        player: String,
        choice: CoinSide,
        result: Result<Option<RandomResponse>, PromiseError>,
    ) -> (outcome: Result<String, ResolveError>)
        ensures
            *final(self) == *old(self),
            match result {
                Ok(r) => match r {
                    Some(resp) => outcome matches Ok(m) && m@ == spec_outcome_message(
                        choice,
                        resp.random_number,
                    ),
                    None => outcome == Err::<String, ResolveError>(ResolveError::ExecutionFailed),
                },
                Err(e) => outcome == Err::<String, ResolveError>(ResolveError::SystemError(e)),
            },
    {
        match result {
            Ok(Some(response)) => Ok(outcome_message(choice, response.random_number)),
            Ok(None) => Err(ResolveError::ExecutionFailed),
            Err(e) => Err(ResolveError::SystemError(e)),
        }
    }
}

} // verus!
