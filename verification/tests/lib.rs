use ak::compounding::Compounding;
use ak::contract::Currency;
use ak::model::ModelConfig;
use ak::Frequency;

#[test]
fn lib_it_works() {
    let result = ak::add(2, 2);
    assert_eq!(result, 4);
}

#[test]
fn add_reaches_the_largest_value() {
    assert_eq!(ak::add(u64::MAX, 0), u64::MAX);
    assert_eq!(ak::add(1, u64::MAX - 1), u64::MAX);
    assert_eq!(ak::add(0, 0), 0);
}

#[test]
fn model_config_holds_the_run() {
    let config = ModelConfig { start: (2024, 1, 1), frequency: Frequency::Monthly, steps: 12 };
    assert_eq!(config.start, (2024, 1, 1));
    assert_eq!(config.frequency, Frequency::Monthly);
    assert_eq!(config.steps, 12);
    assert_ne!(Frequency::Daily, Frequency::Annual);
    assert_eq!(config, config.clone());
}

#[test]
fn plain_conventions_can_be_copied_and_shown() {
    let rule = Compounding::Compounded(ak::frequency::Frequency::Yearly);
    let copy = rule;
    assert_eq!(format!("{:?}", copy), "Compounded(Yearly)");
    assert_eq!(format!("{:?}", Compounding::SimpleThenCompounded(ak::frequency::Frequency::Daily)), "SimpleThenCompounded(Daily)");
    assert_eq!(format!("{:?}", Currency::EUR), "EUR");
}
