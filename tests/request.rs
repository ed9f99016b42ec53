use mtrade::fixed::SCALE;
use mtrade::model::{Action, ActionSide, OrderType, ValidationError};
use mtrade::request::{
    default_cash, default_symbol, default_window, order_type_from_label, parse_decision, side_from_label,
    LlmDecision,
};

#[test]
fn request_defaults() {
    assert_eq!(default_symbol(), "BTCUSDT");
    assert_eq!(default_window(), 500);
    assert_eq!(default_cash(), 10_000 * SCALE as i64);
}

#[test]
fn labels_in_any_case() {
    assert_eq!(side_from_label("buy"), ActionSide::Buy);
    assert_eq!(side_from_label("Sell"), ActionSide::Sell);
    assert_eq!(side_from_label("hold"), ActionSide::Hold);
    assert_eq!(side_from_label("short"), ActionSide::Hold);
    assert_eq!(order_type_from_label("limit"), OrderType::Limit);
    assert_eq!(order_type_from_label("MARKET"), OrderType::Market);
    assert_eq!(order_type_from_label("stop"), OrderType::Market);
}

#[test]
fn decision_is_clamped() {
    let d = LlmDecision { action: "buy".to_string(), size_pct: 3 * SCALE as i64, note: Some("go".to_string()) };
    let a = parse_decision("BTCUSDT".to_string(), d).unwrap();
    assert_eq!(a.side, ActionSide::Buy);
    assert_eq!(a.size_pct, SCALE);
    assert_eq!(a.note.as_deref(), Some("go"));
    let d = LlmDecision { action: "SELL".to_string(), size_pct: -5, note: None };
    let a = parse_decision("BTCUSDT".to_string(), d).unwrap();
    assert_eq!((a.side, a.size_pct), (ActionSide::Sell, 0));
}

#[test]
fn validation_of_fraction() {
    let ok = Action::new("BTCUSDT".to_string(), ActionSide::Buy, SCALE, None);
    assert_eq!(ok.validate(), Ok(()));
    let bad = Action::new("BTCUSDT".to_string(), ActionSide::Buy, SCALE + 1, None);
    assert_eq!(bad.validate(), Err(ValidationError::SizeOutOfRange(SCALE + 1)));
    assert_ne!(ok.id, bad.id);
}
