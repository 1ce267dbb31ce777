use ecs::injection::service_function;
use ecs::injection::service_function_implementation;

#[test]
fn unit_test() {
    let echo = String::from("Test");
    let result: String = service_function_implementation(
        echo,
        || -> String { String::from("Unit") },
        |x| -> String { x },
    );
    assert_eq!("Unit, Test!", result);
}

#[test]
fn integration_test() {
    let result: String = service_function(String::from("World"));
    assert_eq!("Hello, World!", result);
}
