use mental_poker::cards::{ClassicPlayingCard, Suite, Value};

#[test]
fn numbering_round_trips() {
    for x in 0..52usize {
        let c = ClassicPlayingCard::from_52(x);
        assert_eq!(c.to_52(), x);
    }
}
