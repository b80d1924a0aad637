use swap_ingest::amount::{convert_to_standard_unit, parse_decimal_amount, Amount};
use swap_ingest::asset::{asset_name_from_pool, asset_name_from_trade_pool, sanitize_string};
use swap_ingest::checkpoint::normalize_checkpoint;
use swap_ingest::num::{convert_nano_to_sec, parse_u64, u64_to_dec_string};
use swap_ingest::timefmt::{format_date_for_sql, format_epoch_timestamp};

#[test]
fn test_convert_to_standard_unit() {
    let a = convert_to_standard_unit(1000000, 6);
    assert_eq!(a.base as f64 / 10f64.powi(a.decimals as i32), 1.0);
    let b = convert_to_standard_unit(123456789, 6);
    assert_eq!(b.base as f64 / 10f64.powi(b.decimals as i32), 123.456789);
}

#[test]
fn test_convert_nano_to_sec() {
    assert_eq!(convert_nano_to_sec("1000000000"), "1");
    assert_eq!(convert_nano_to_sec("5000000000"), "5");
}

#[test]
fn test_parse_u64() {
    assert_eq!(parse_u64("123456").unwrap(), 123456);
    assert!(parse_u64("xyz").is_err());
}

#[test]
fn test_format_date_for_sql() {
    assert_eq!(format_date_for_sql("14-08-2023").unwrap(), "2023-08-14");
    assert!(format_date_for_sql("invalid-date").is_err());
}

#[test]
fn parse_u64_rejects_empty_and_overflow() {
    assert!(parse_u64("").is_err());
    assert_eq!(parse_u64("18446744073709551615").unwrap(), u64::MAX);
    assert!(parse_u64("18446744073709551616").is_err());
    assert!(parse_u64("12.5").is_err());
    assert!(parse_u64("-3").is_err());
}

#[test]
fn dec_string_renders_exactly() {
    assert_eq!(u64_to_dec_string(0), "0");
    assert_eq!(u64_to_dec_string(7), "7");
    assert_eq!(u64_to_dec_string(1700000000), "1700000000");
}

#[test]
fn format_date_pads_fields() {
    assert_eq!(format_date_for_sql("1-2-2023").unwrap(), "2023-02-01");
    assert_eq!(format_date_for_sql("29-02-2024").unwrap(), "2024-02-29");
    assert!(format_date_for_sql("29-02-2023").is_err());
    assert!(format_date_for_sql("31-04-2023").is_err());
    assert!(format_date_for_sql("14-13-2023").is_err());
    assert!(format_date_for_sql("0-01-2023").is_err());
}

#[test]
fn format_epoch_timestamp_renders_utc() {
    let (date, time) = format_epoch_timestamp("1700000000000000000").unwrap();
    assert_eq!(date, "14-11-2023");
    assert_eq!(time, "10:13pm");
    assert!(format_epoch_timestamp("not-nanos").is_err());
    assert!(format_epoch_timestamp("").is_err());
}

#[test]
fn asset_names_from_pool_notation() {
    assert_eq!(asset_name_from_pool("BTC.BTC").unwrap(), "BTC.BTC");
    assert_eq!(asset_name_from_pool("BTC~BTC").unwrap(), "BTC.BTC");
    assert_eq!(asset_name_from_pool("ETH/USDC-ERC20").unwrap(), "ETH.USDC");
    assert!(asset_name_from_pool("NODELIMITER").is_none());
}

#[test]
fn asset_names_from_trade_pool_keep_delimiter() {
    assert_eq!(asset_name_from_trade_pool("BTC~BTC").unwrap(), "BTC~BTC");
    assert_eq!(asset_name_from_trade_pool("THOR.RUNE").unwrap(), "THOR.RUNE");
    assert_eq!(asset_name_from_trade_pool("ETH/USDC/X").unwrap(), "ETH/USDC");
    assert!(asset_name_from_trade_pool("BTC-BTC").is_none());
}

#[test]
fn sanitize_keeps_ascii_and_alphanumerics() {
    assert_eq!(sanitize_string("abc123"), "abc123");
    assert_eq!(sanitize_string("a b!c"), "a b!c");
    // non-ASCII alphanumerics stay, other non-ASCII goes
    assert_eq!(sanitize_string("caf\u{e9}"), "caf\u{e9}");
    assert_eq!(sanitize_string("a\u{2192}b"), "ab");
}

#[test]
fn decimal_amounts_parse_exactly() {
    assert_eq!(parse_decimal_amount("123.45").unwrap(), Amount { base: 12345, decimals: 2 });
    assert_eq!(parse_decimal_amount("123").unwrap(), Amount { base: 123, decimals: 0 });
    assert!(parse_decimal_amount("").is_none());
    assert!(parse_decimal_amount(".5").is_none());
    assert!(parse_decimal_amount("1.").is_none());
    assert!(parse_decimal_amount("1.2.3").is_none());
    assert!(parse_decimal_amount("abc").is_none());
}

#[test]
fn amount_display_trims_trailing_zeros() {
    assert_eq!(Amount { base: 100000000, decimals: 8 }.display(), "1.0");
    assert_eq!(Amount { base: 123456789, decimals: 6 }.display(), "123.456789");
    assert_eq!(Amount { base: 5, decimals: 0 }.display(), "5.0");
    assert_eq!(Amount { base: 1050, decimals: 3 }.display(), "1.05");
}

#[test]
fn checkpoint_cursor_normalizes() {
    assert_eq!(normalize_checkpoint(None), "");
    assert_eq!(normalize_checkpoint(Some("  170981189000000012\n".to_string())), "170981189000000012");
    assert_eq!(normalize_checkpoint(Some("\t \r\n".to_string())), "");
    assert_eq!(normalize_checkpoint(Some("token".to_string())), "token");
}
