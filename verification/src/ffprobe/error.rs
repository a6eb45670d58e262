use vstd::prelude::*;
use vstd::string::StringExecFns;

verus! {

/// Why a file could not be turned into a stream model.
#[derive(Debug, PartialEq, Eq)]
pub enum ProbeError {
    /// A numeric field of the report did not parse; holds the field's text.
    NumParseError(String),
    /// A stream's kind is none of the four known ones; holds the kind's text.
    UnknownCodecType(String),
    /// The probe tool could not be run; holds the system's message.
    ExecError(String),
    /// The probe's report was not of the expected shape; holds the decoder's message.
    SerdeError(String),
}

impl ProbeError {
    /// The text that `message` produces.
    pub open spec fn message_text(self) -> Seq<char> {
        match self {
            ProbeError::NumParseError(num) => "Failed to parse '"@ + num@ + " as a number.'"@,
            ProbeError::UnknownCodecType(kind) => "Unknown codec name '"@ + kind@ + ".'"@,
            ProbeError::ExecError(e) => "ffprobe subprocess failed to run: "@ + e@,
            ProbeError::SerdeError(e) => "Serde failed to deserialize the result: "@ + e@,
        }
    }

    /// A sentence for the operator.
    pub fn message(&self) -> (msg: String)
        ensures
            msg@ == self.message_text(),
    {
        match self {
            ProbeError::NumParseError(num) => {
                String::from_str("Failed to parse '").concat(num.as_str()).concat(" as a number.'")
            },
            ProbeError::UnknownCodecType(kind) => {
                String::from_str("Unknown codec name '").concat(kind.as_str()).concat(".'")
            },
            ProbeError::ExecError(e) => {
                String::from_str("ffprobe subprocess failed to run: ").concat(e.as_str())
            },
            ProbeError::SerdeError(e) => {
                String::from_str("Serde failed to deserialize the result: ").concat(e.as_str())
            },
        }
    }
}

} // verus!
