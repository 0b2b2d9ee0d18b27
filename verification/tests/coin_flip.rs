use coin_flip::codec::{
    parse_random_response, parse_range_request, serialize_random_response,
    serialize_range_request, RangeRequest,
};
use coin_flip::contract::{
    side_of, CoinFlipContract, FlipError, PromiseError, ResolveError, CALLBACK_GAS, MIN_DEPOSIT,
};
use coin_flip::rng::{execute, frame_output, map_to_range, RngError};
use coin_flip::types::{CoinSide, RandomResponse};

#[test]
fn lib_test_input_parsing() {
    let json = serialize_range_request(1, 10);
    let parsed = parse_range_request(&json).unwrap();
    assert_eq!(parsed.min, 1);
    assert_eq!(parsed.max, 10);
}

#[test]
fn lib_test_output_serialization() {
    let json = serialize_random_response(42);
    let text = String::from_utf8(json).unwrap();
    assert!(text.contains("42"));
}

#[test]
fn main_test_input_parsing() {
    let json = serialize_range_request(1, 10);
    let parsed = parse_range_request(&json).unwrap();
    assert_eq!(parsed.min, 1);
    assert_eq!(parsed.max, 10);
}

#[test]
fn main_test_output_serialization() {
    let json = serialize_random_response(42);
    let text = String::from_utf8(json).unwrap();
    assert!(text.contains("42"));
}

#[test]
fn zero_resolves_heads_anything_else_tails() {
    assert_eq!(side_of(0), CoinSide::Heads);
    assert_eq!(side_of(1), CoinSide::Tails);
    assert_eq!(side_of(2), CoinSide::Tails);
    assert_eq!(side_of(u32::MAX), CoinSide::Tails);
}

#[test]
fn round_trip_range_request() {
    let json = serialize_range_request(5, 9);
    assert_eq!(json, b"{\"min\":5,\"max\":9}".to_vec());
    let parsed = parse_range_request(&json).unwrap();
    assert_eq!(parsed, RangeRequest { min: 5, max: 9 });
}

#[test]
fn round_trip_random_response() {
    let json = serialize_random_response(7);
    assert_eq!(json, b"{\"random_number\":7}".to_vec());
    assert_eq!(parse_random_response(&json), Some(7));
}

#[test]
fn parser_accepts_whitespace_and_either_key_order() {
    let parsed = parse_range_request(b" {\n\t\"max\" : 9 ,  \"min\" : 5 }  ").unwrap();
    assert_eq!(parsed, RangeRequest { min: 5, max: 9 });
    let parsed = parse_range_request(b"{ \"min\": 0, \"max\": 1 }").unwrap();
    assert_eq!(parsed, RangeRequest { min: 0, max: 1 });
    assert_eq!(
        parse_random_response(b"  { \"random_number\" :  123 }  "),
        Some(123)
    );
}

#[test]
fn parser_rejects_malformed_documents() {
    assert!(parse_range_request(b"").is_none());
    assert!(parse_range_request(b"not json").is_none());
    assert!(parse_range_request(b"{\"min\":1}").is_none());
    assert!(parse_range_request(b"{\"min\":1,\"min\":2}").is_none());
    assert!(parse_range_request(b"{\"min\":-1,\"max\":2}").is_none());
    assert!(parse_range_request(b"{\"min\":1,\"max\":2}x").is_none());
    assert!(parse_range_request(b"{\"min\":01,\"max\":2}").is_none());
    assert!(parse_range_request(b"{\"min\":0,\"max\":10}").is_some());
    assert!(parse_random_response(b"{\"random_number\":007}").is_none());
    assert!(parse_range_request(b"{\"min\":1,\"max\":2").is_none());
    assert!(parse_random_response(b"{\"random\":7}").is_none());
}

#[test]
fn parser_bounds_values_at_u32_max() {
    let parsed = parse_range_request(b"{\"min\":0,\"max\":4294967295}").unwrap();
    assert_eq!(parsed.max, u32::MAX);
    assert!(parse_range_request(b"{\"min\":0,\"max\":4294967296}").is_none());
    assert!(parse_random_response(b"{\"random_number\":99999999999}").is_none());
}

#[test]
fn range_mapping_stays_inclusive() {
    for entropy in [0u32, 1, 2, 41, u32::MAX] {
        let n = map_to_range(5, 9, entropy);
        assert!((5..=9).contains(&n));
    }
    assert_eq!(map_to_range(0, 1, 7), 1);
    assert_eq!(map_to_range(0, 1, 8), 0);
}

#[test]
fn inverted_or_degenerate_range_collapses_to_min() {
    assert_eq!(map_to_range(3, 3, 0), 3);
    assert_eq!(map_to_range(3, 3, u32::MAX), 3);
    assert_eq!(map_to_range(9, 5, 12345), 9);
}

#[test]
fn rng_service_is_deterministic_on_degenerate_range() {
    for _ in 0..8 {
        let out = execute(b"{\"min\":3,\"max\":3}").unwrap();
        assert_eq!(out, b"{\"random_number\":3}".to_vec());
    }
}

#[test]
fn rng_service_answers_the_wager_range() {
    let out = execute(b"{\"min\":0,\"max\":1}").unwrap();
    let n = parse_random_response(&out).unwrap();
    assert!(n == 0 || n == 1);
}

#[test]
fn rng_service_rejects_malformed_input() {
    let err = execute(b"not json").unwrap_err();
    assert_eq!(err, RngError::MalformedInput);
    assert_eq!(err.status_code(), -1);
}

#[test]
fn rng_status_codes_are_distinct_negatives() {
    assert_eq!(RngError::MalformedInput.status_code(), -1);
    assert_eq!(RngError::EntropyUnavailable.status_code(), -2);
    assert_eq!(RngError::SerializationFailed.status_code(), -3);
    assert_eq!(RngError::AllocationFailed.status_code(), -4);
}

#[test]
fn frame_output_prefixes_the_payload_length() {
    let framed = frame_output(&vec![97u8, 98]);
    assert_eq!(framed, vec![2, 0, 0, 0, 97, 98]);
    let empty = frame_output(&Vec::new());
    assert_eq!(empty, vec![0, 0, 0, 0]);
}

#[test]
fn deposit_below_minimum_fails_synchronously() {
    let mut contract = CoinFlipContract::new();
    let r = contract.flip_coin("alice.near".to_string(), CoinSide::Heads, MIN_DEPOSIT - 1);
    assert!(matches!(r, Err(FlipError::InsufficientDeposit)));
    assert!(FlipError::InsufficientDeposit
        .message()
        .contains("Minimum deposit"));
    let r = contract.flip_coin("alice.near".to_string(), CoinSide::Heads, 0);
    assert!(r.is_err());
}

#[test]
fn sufficient_deposit_builds_the_remote_request() {
    let mut contract = CoinFlipContract::new();
    let flip = contract
        .flip_coin("alice.near".to_string(), CoinSide::Tails, MIN_DEPOSIT)
        .unwrap();
    assert_eq!(flip.request.receiver, "outlayer.near");
    assert_eq!(flip.request.attached_deposit, MIN_DEPOSIT);
    assert_eq!(flip.request.input_data, b"{\"min\":0,\"max\":1}".to_vec());
    assert_eq!(flip.request.response_format, "Json");
    assert_eq!(
        flip.request.payer_account_id,
        Some("alice.near".to_string())
    );
    assert!(flip.request.secrets_ref.is_none());
    assert_eq!(flip.request.unused_gas_weight, 1);
    assert_eq!(flip.request.callback_gas, CALLBACK_GAS);
    assert_eq!(
        flip.request.code_source.repo,
        "https://github.com/zavodil/random-ark"
    );
    assert_eq!(flip.request.code_source.commit, "main");
    assert_eq!(flip.request.code_source.build_target, "wasm32-wasip1");
    assert_eq!(flip.request.resource_limits.max_instructions, 10_000_000_000);
    assert_eq!(flip.request.resource_limits.max_memory_mb, 128);
    assert_eq!(flip.request.resource_limits.max_execution_seconds, 60);
    assert_eq!(flip.wager.player, "alice.near");
    assert_eq!(flip.wager.choice, CoinSide::Tails);
}

#[test]
fn heads_choice_with_zero_draw_wins() {
    let mut contract = CoinFlipContract::new();
    let message = contract
        .on_random_result(
            "alice.near".to_string(),
            CoinSide::Heads,
            Ok(Some(RandomResponse { random_number: 0 })),
        )
        .unwrap();
    assert_eq!(
        message,
        "\u{1F389} Congratulations! You won! Result: Heads, Your choice: Heads"
    );
    assert!(message.contains("won"));
    assert!(message.contains("Heads"));
}

#[test]
fn heads_choice_with_one_draw_loses() {
    let mut contract = CoinFlipContract::new();
    let message = contract
        .on_random_result(
            "alice.near".to_string(),
            CoinSide::Heads,
            Ok(Some(RandomResponse { random_number: 1 })),
        )
        .unwrap();
    assert_eq!(
        message,
        "\u{1F622} Sorry, you lost. Result: Tails, Your choice: Heads. Better luck next time!"
    );
    assert!(message.contains("lost"));
    assert!(message.contains("Tails"));
}

#[test]
fn draws_above_one_still_resolve_tails() {
    let mut contract = CoinFlipContract::new();
    let message = contract
        .on_random_result(
            "alice.near".to_string(),
            CoinSide::Tails,
            Ok(Some(RandomResponse { random_number: 7 })),
        )
        .unwrap();
    assert!(message.contains("won"));
}

#[test]
fn win_and_lose_messages_never_coincide() {
    let mut contract = CoinFlipContract::new();
    for choice in [CoinSide::Heads, CoinSide::Tails] {
        for draw in [0u32, 1, 2] {
            let message = contract
                .on_random_result(
                    "alice.near".to_string(),
                    choice,
                    Ok(Some(RandomResponse {
                        random_number: draw,
                    })),
                )
                .unwrap();
            let won = choice == side_of(draw);
            assert_eq!(message.contains("won"), won);
            assert_eq!(message.contains("lost"), !won);
        }
    }
}

#[test]
fn empty_success_is_a_fatal_execution_failure() {
    let mut contract = CoinFlipContract::new();
    let err = contract
        .on_random_result("alice.near".to_string(), CoinSide::Heads, Ok(None))
        .unwrap_err();
    assert_eq!(err, ResolveError::ExecutionFailed);
    assert!(err.message().contains("execution failed"));
}

#[test]
fn promise_error_is_a_distinct_fatal_system_error() {
    let mut contract = CoinFlipContract::new();
    let err = contract
        .on_random_result(
            "alice.near".to_string(),
            CoinSide::Heads,
            Err(PromiseError::Failed),
        )
        .unwrap_err();
    assert_eq!(err, ResolveError::SystemError(PromiseError::Failed));
    assert!(err.message().contains("system error"));
    assert_ne!(err.message(), ResolveError::ExecutionFailed.message());
}
