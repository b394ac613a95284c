use vstd::prelude::*;
use vstd::string::StringExecFns;

verus! {

/// Two text values that a test contract answers with.
#[derive(Clone, Debug, PartialEq)]
pub struct TestData {
    pub frist_value: String,
    pub second_value: String,
}

/// The fixed values that the test contract's query answers with.
pub fn query_test_data() -> (r: TestData)
    ensures
        r.frist_value@ == "first_value"@,
        r.second_value@ == "second_value"@,
{
    TestData { frist_value: String::from_str("first_value"), second_value: String::from_str("second_value") }
}

} // verus!
