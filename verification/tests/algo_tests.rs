use algo::binding::JsAlgo;
use algo::text::decimal_string;
use algo::text::int_string;
use algo::Algo;
use algo::AlgoType;

#[test]
fn algo_names_its_algorithm() {
    assert_eq!(Algo::new(AlgoType::Blake3).get_name(), "Blake3");
    assert_eq!(Algo::new(AlgoType::Default).get_name(), "Default");
}

#[test]
fn blake3_hash_of_empty_string() {
    let a = Algo::new(AlgoType::Blake3);
    assert_eq!(
        a.hash(String::new()),
        "af1349b9f5f9a1a6a0404dea36dcc9499bcb25c9adc112b7cc9a93cae41f3262"
    );
}

#[test]
fn blake3_hash_matches_the_library() {
    let a = Algo::new(AlgoType::Blake3);
    let hashed = a.hash(String::from("hello world"));
    assert_eq!(hashed.len(), 64);
    assert_eq!(hashed, blake3::hash(b"hello world").to_string());
}

#[test]
fn default_hash_is_a_deterministic_decimal() {
    let a = Algo::new(AlgoType::Default);
    let h1 = a.hash(String::from("hello world"));
    let h2 = a.hash(String::from("hello world"));
    assert_eq!(h1, h2);
    assert!(!h1.is_empty());
    assert!(h1.chars().all(|c| c.is_ascii_digit()));
    h1.parse::<u64>().unwrap();
}

#[test]
fn js_algo_selects_by_name() {
    assert_eq!(JsAlgo::new(String::from("blake3")).get_name(), "Blake3");
    assert_eq!(JsAlgo::new(String::from("sip")).get_name(), "Default");
    assert_eq!(JsAlgo::new(String::new()).get_name(), "Default");
}

#[test]
fn js_algo_hashes_like_the_inner_algo() {
    let js = JsAlgo::new(String::from("blake3"));
    let plain = Algo::new(AlgoType::Blake3);
    assert_eq!(js.hash(String::from("abc")), plain.hash(String::from("abc")));
}

#[test]
fn decimal_string_renders_exact_numerals() {
    assert_eq!(decimal_string(0), "0");
    assert_eq!(decimal_string(7), "7");
    assert_eq!(decimal_string(1234567890), "1234567890");
    assert_eq!(decimal_string(u64::MAX), "18446744073709551615");
}

#[test]
fn int_string_renders_signed_values() {
    assert_eq!(int_string(0), "0");
    assert_eq!(int_string(42), "42");
    assert_eq!(int_string(-42), "-42");
    assert_eq!(int_string(i64::MIN), "-9223372036854775808");
    assert_eq!(int_string(i64::MAX), "9223372036854775807");
}
