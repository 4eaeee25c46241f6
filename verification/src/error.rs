use vstd::prelude::*;

verus! {

/// Why an indicator could not be computed.
#[non_exhaustive]
#[derive(Debug)]
pub enum IndicatorError {
    /// The series is too short for the requested window. Carries a message for
    /// people to read; programs should look at the variant only.
    NotEnoughData(String),
}

impl IndicatorError {
    /// A `NotEnoughData` error with the given message.
    pub fn not_enough_data(message: &str) -> (e: Self)
        ensures
            e == IndicatorError::NotEnoughData(e.message_text()),
            e.message_text()@ == message@,
    {
        IndicatorError::NotEnoughData(message.to_owned())
    }

    /// The message that the error carries.
    pub open spec fn message_text(&self) -> String {
        match self {
            IndicatorError::NotEnoughData(text) => *text,
        }
    }

    /// A copy of the message that the error carries.
    pub fn message(&self) -> (text: String)
        ensures
            text@ == self.message_text()@,
    {
        match self {
            IndicatorError::NotEnoughData(text) => text.clone(),
        }
    }
}

} // verus!
