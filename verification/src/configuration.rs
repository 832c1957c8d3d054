//! What the Configuration page shows: the provider, model and reasoning effort this process
//! resolved.
use vstd::prelude::*;

verus! {

/// The model resolved for the running process, as shown. It holds no credentials.
#[derive(Clone, Debug, PartialEq, Eq)]
pub struct ConfigurationSummary {
    pub provider: String,
    pub model: String,
    /// The reasoning effort, as its name reads.
    pub reasoning_effort: String,
}

impl ConfigurationSummary {
    /// The fields the page shows, label and value, in reading order.
    pub fn fields(&self) -> (fields: [(&'static str, &str); 3])
        ensures
            fields[0].0@ == "Provider"@,
            fields[0].1@ == self.provider@,
            fields[1].0@ == "Model"@,
            fields[1].1@ == self.model@,
            fields[2].0@ == "Reasoning effort"@,
            fields[2].1@ == self.reasoning_effort@,
    {
        [
            ("Provider", self.provider.as_str()),
            ("Model", self.model.as_str()),
            ("Reasoning effort", self.reasoning_effort.as_str()),
        ]
    }

    /// The rows the page asks for: a label, a value and a blank row per field; the note, a blank
    /// row and the footer; then the padding and borders.
    pub fn preferred_rows(&self) -> (rows: u16)
        ensures
            rows == 3 * 3 + 3 + 4,
    {
        let fields = self.fields();
        (fields.len() as u16) * 3 + 3 + 4
    }
}

} // verus!
