//! Dependency injection by function composition: a service function whose
//! dependencies are handed in as values.

use vstd::prelude::*;

verus! {

/// Relies on std's `String::push_str`: appends the characters of `other`
/// to the end of `s`.
pub assume_specification[ String::push_str ](s: &mut String, other: &str)
    ensures
        final(s)@ == old(s)@ + other@,
;

/// Composes a greeting out of the two injected dependencies: the result is
/// the first dependency's output, a comma and a space, the second
/// dependency's output on `echo`, and an exclamation mark.
pub fn service_function_implementation(
    echo: String,
    first_dependency: impl Fn() -> String,
    second_dependency: impl Fn(String) -> String,
) -> (result: String)
    requires
        call_requires(first_dependency, ()),
        call_requires(second_dependency, (echo,)),
    ensures
        exists|a: String, b: String|
            call_ensures(first_dependency, (), a) && call_ensures(second_dependency, (echo,), b)
                && result@ == a@ + ", "@ + b@ + "!"@,
{
    let mut result = String::new();
    let a = first_dependency();
    result.push_str(a.as_str());
    result.push_str(", ");
    let b = second_dependency(echo);
    result.push_str(b.as_str());
    result.push_str("!");
    proof {
        assert(result@ =~= a@ + ", "@ + b@ + "!"@);
    }
    result
}

/// Binds `service_function_implementation` to its production dependencies:
/// the result of `service_function(echo)` is "Hello, ", then `echo`, then
/// an exclamation mark.
pub fn service_function(echo: String) -> (result: String)
    ensures
        result@ == "Hello, "@ + echo@ + "!"@,
{
    let result = service_function_implementation(echo, hello_dependency, echo_dependency);
    proof {
        reveal_strlit("Hello");
        reveal_strlit("Hello, ");
        reveal_strlit(", ");
        assert(result@ =~= "Hello, "@ + echo@ + "!"@);
    }
    result
}

/// The fixed greeting dependency.
pub fn hello_dependency() -> (result: String)
    ensures
        result@ == "Hello"@,
{
    "Hello".to_owned()
}

/// The identity dependency: hands its argument back unchanged.
pub fn echo_dependency(echo: String) -> (result: String)
    ensures
        result == echo,
{
    echo
}

} // verus!
