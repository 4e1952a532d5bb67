use babble_boop::dispatch::complete_utterance;
use babble_boop::price_estimator::{estimate_tokens, parse_total_cost, PriceEstimator};
use babble_boop::translation::{reply_text, translation_prompt, user_message};

#[test]
fn transcription_cost_is_linear_in_duration() {
    let p = PriceEstimator::new("gpt-4o", 0);
    assert_eq!(p.estimate_transcription_cost(0), 0);
    // 0.006 USD per minute is 100 nano-dollars per millisecond
    assert_eq!(p.estimate_transcription_cost(60_000), 6_000_000);
    assert_eq!(p.estimate_transcription_cost(1_500), 150_000);
    assert_eq!(
        p.estimate_transcription_cost(2_500),
        p.estimate_transcription_cost(1_000) + p.estimate_transcription_cost(1_500)
    );
}

#[test]
fn translation_cost_follows_model_prices() {
    let p = PriceEstimator::new("gpt-4o", 0);
    assert_eq!(p.estimate_translation_cost(0, 0), 0);
    assert_eq!(p.estimate_translation_cost(1_000_000, 0), 5_000_000_000);
    assert_eq!(p.estimate_translation_cost(0, 1_000_000), 15_000_000_000);
    assert_eq!(p.estimate_translation_cost(200, 100), 200 * 5_000 + 100 * 15_000);
    let mini = PriceEstimator::new("gpt-4o-mini-2024-07-18", 0);
    assert_eq!(mini.estimate_translation_cost(1_000, 1_000), 150_000 + 600_000);
    let dated = PriceEstimator::new("gpt-4o-2024-08-06", 0);
    assert_eq!(dated.estimate_translation_cost(10, 10), 25_000 + 100_000);
    let unknown = PriceEstimator::new("other-model", 0);
    assert_eq!(unknown.estimate_translation_cost(1_000, 1_000), 0);
    assert_eq!(unknown.estimate_transcription_cost(60_000), 6_000_000);
}

#[test]
fn tokens_are_a_quarter_of_characters() {
    assert_eq!(estimate_tokens(""), 0);
    assert_eq!(estimate_tokens("abc"), 0);
    assert_eq!(estimate_tokens("abcdefgh"), 2);
    assert_eq!(estimate_tokens("ééééé"), 1);
}

#[test]
fn operation_cost_adds_both_parts() {
    let p = PriceEstimator::new("gpt-4o-mini", 0);
    let prompt = "p".repeat(400);
    let response = "r".repeat(40);
    assert_eq!(p.operation_cost(3_000, &prompt, &response), 300_000 + 100 * 150 + 10 * 600);
}

#[test]
fn total_is_sum_of_additions_and_survives_restart() {
    let mut p = PriceEstimator::new("gpt-4o", 1_000);
    let costs: [u128; 4] = [5, 120_000, 0, 7_777_777];
    for c in costs {
        p.add_cost(c);
    }
    assert_eq!(p.total_cost, 1_000 + 5 + 120_000 + 7_777_777);
    let saved = p.total_cost_text();
    assert_eq!(saved, "0.007898782");
    let restored = PriceEstimator::new("gpt-4o", parse_total_cost(&saved).unwrap());
    assert_eq!(restored.total_cost, p.total_cost);
    assert_eq!(PriceEstimator::new("gpt-4o", 0).total_cost_text(), "0.000000000");
    assert_eq!(PriceEstimator::new("gpt-4o", 12_000_000_005).total_cost_text(), "12.000000005");
}

#[test]
fn total_saturates_instead_of_wrapping() {
    let mut p = PriceEstimator::new("gpt-4o", u128::MAX - 1);
    p.add_cost(5);
    assert_eq!(p.total_cost, u128::MAX);
}

#[test]
fn totals_read_as_dollars() {
    assert_eq!(parse_total_cost("0.5"), Some(500_000_000));
    assert_eq!(parse_total_cost("12"), Some(12_000_000_000));
    assert_eq!(parse_total_cost("12."), Some(12_000_000_000));
    assert_eq!(parse_total_cost("007.25"), Some(7_250_000_000));
    // a total written as a 64-bit float keeps its first nine decimals
    assert_eq!(parse_total_cost("0.0012340000000000001"), Some(1_234_000));
    assert_eq!(parse_total_cost("0.000000001"), Some(1));
}

#[test]
fn malformed_totals_are_refused() {
    assert_eq!(parse_total_cost(""), None);
    assert_eq!(parse_total_cost("."), None);
    assert_eq!(parse_total_cost(".5"), None);
    assert_eq!(parse_total_cost("12a"), None);
    assert_eq!(parse_total_cost("-3"), None);
    assert_eq!(parse_total_cost("1.2.3"), None);
    assert_eq!(parse_total_cost("1.5e3"), None);
    assert_eq!(parse_total_cost("inf"), None);
    assert_eq!(parse_total_cost("340282366920938463463374607431768211455"), None);
    assert_eq!(
        parse_total_cost("340282366920938463463374607431.768211455"),
        Some(u128::MAX)
    );
}

#[test]
fn prompt_and_reply_texts() {
    let prompt = translation_prompt("Japanese", "good morning");
    assert_eq!(
        prompt,
        "You are a language translation app for VRChat. Do not answer the user. Only translate the words the user said. Answer only in the target language. Do not quote the translation. target_language=Japanese Text:\n\ngood morning"
    );
    assert_eq!(reply_text("おはよう", "good morning", true), "おはよう\ngood morning");
    assert_eq!(reply_text("おはよう", "good morning", false), "おはよう");
    let m = user_message("hi");
    assert_eq!(m.role, "user");
    assert_eq!(m.content, "hi");
}

#[test]
fn completing_an_utterance_charges_and_frames_the_reply() {
    let mut ledger = PriceEstimator::new("gpt-4o-mini", 1_000);
    let prompt = "p".repeat(400);
    let response = "r".repeat(200);
    let (cost, packets) = complete_utterance(&mut ledger, 3_000, &prompt, "hello", &response, true, 5);
    assert_eq!(cost, 300_000 + 100 * 150 + 50 * 600);
    assert_eq!(ledger.total_cost, 1_000 + cost);
    // 200 characters, a line break and five more: two chunks
    assert_eq!(packets.len(), 2);
    let (_, packets) = complete_utterance(&mut ledger, 0, "", "hello", "hola", false, 5);
    assert_eq!(packets.len(), 1);
    match rosc::decoder::decode_udp(&packets[0]).unwrap().1 {
        rosc::OscPacket::Message(m) => {
            assert_eq!(m.args[0], rosc::OscType::String("hola".to_string()));
            assert_eq!(m.args[2], rosc::OscType::Bool(true));
        }
        _ => panic!("expected a message"),
    }
}
