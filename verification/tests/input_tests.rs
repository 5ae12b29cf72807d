use basilcore::input::{InputProvider, MockInputProvider};

#[test]
fn mock_provider_deterministic() {
    let mut a = MockInputProvider::new(123456);
    let mut b = MockInputProvider::new(123456);
    for _ in 0..50 {
        assert_eq!(a.read_line(), b.read_line());
        assert_eq!(a.read_char(), b.read_char());
    }
}

#[test]
fn mock_provider_values_in_set() {
    let mut m = MockInputProvider::new(1);
    for _ in 0..50 {
        let s = m.read_line();
        assert!(s == "" || s == "Y" || s == "N" || s == "0" || s == "1" || s == "9");
        let c = m.read_char().unwrap();
        assert!(c == '\r' || c == 'Y' || c == 'N' || c == '0' || c == '1' || c == '9');
    }
}
