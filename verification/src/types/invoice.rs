use vstd::prelude::*;

verus! {

/// Basic information about an invoice.
#[derive(Clone, Debug, PartialEq, Eq, Hash)]
pub struct Invoice {
    /// Product name.
    pub title: String,

    /// Product description.
    pub description: String,

    /// Unique bot deep-linking parameter that can be used to generate this
    /// invoice.
    pub start_parameter: String,

    /// Three-letter ISO 4217 currency code.
    pub currency: String,

    /// Total price in the smallest units of the currency (an integer, not a
    /// fraction).
    pub total_amount: i32,
}

impl Invoice {
    pub fn new(
        title: String,
        description: String,
        start_parameter: String,
        currency: String,
        total_amount: i32,
    ) -> (r: Self)
        ensures
            r == (Invoice { title, description, start_parameter, currency, total_amount }),
    {
        Self { title, description, start_parameter, currency, total_amount }
    }

    pub fn title(self, val: String) -> (r: Self)
        ensures
            r == (Invoice { title: val, ..self }),
    {
        Self { title: val, ..self }
    }

    pub fn description(self, val: String) -> (r: Self)
        ensures
            r == (Invoice { description: val, ..self }),
    {
        Self { description: val, ..self }
    }

    pub fn start_parameter(self, val: String) -> (r: Self)
        ensures
            r == (Invoice { start_parameter: val, ..self }),
    {
        Self { start_parameter: val, ..self }
    }

    pub fn currency(self, val: String) -> (r: Self)
        ensures
            r == (Invoice { currency: val, ..self }),
    {
        Self { currency: val, ..self }
    }

    pub fn total_amount(self, val: i32) -> (r: Self)
        ensures
            r == (Invoice { total_amount: val, ..self }),
    {
        Self { total_amount: val, ..self }
    }
}

} // verus!
