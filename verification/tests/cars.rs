use stackvm::cars::{Aggregate, Car};

#[test]
fn aggregation_renders_name_and_gas() {
    let porsche = Car::new(&2i64, String::from("porsche"));
    assert_eq!(porsche.aggregation(), "name: porsche gas: 2");
}

#[test]
fn aggregation_renders_zero_and_negative_gas() {
    let empty = Car::new(&0i64, String::from("lada"));
    assert_eq!(empty.aggregation(), "name: lada gas: 0");
    let debt = Car::new(&-42i64, String::from("trabant"));
    assert_eq!(debt.aggregation(), "name: trabant gas: -42");
}

#[test]
fn aggregation_renders_the_extreme_readings() {
    let min = Car::new(&i64::MIN, String::from("min"));
    assert_eq!(min.aggregation(), "name: min gas: -9223372036854775808");
    let max = Car::new(&i64::MAX, String::from("max"));
    assert_eq!(max.aggregation(), "name: max gas: 9223372036854775807");
}
