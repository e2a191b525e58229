//! Output options honoured by the writer.

use vstd::prelude::*;

verus! {

/// Configuration for serializing a document.
#[derive(Clone, Copy, Debug)]
pub struct WriteOptions {
    /// Quote attribute values with `'` instead of `"`.
    pub use_single_quote: bool,
    /// Emit attributes whose `visible` flag is off.
    pub write_hidden_attributes: bool,
}

impl Default for WriteOptions {
    /// Double quotes, hidden attributes suppressed.
    fn default() -> (r: Self)
        ensures
            !r.use_single_quote,
            !r.write_hidden_attributes,
    {
        WriteOptions { use_single_quote: false, write_hidden_attributes: false }
    }
}

impl WriteOptions {
    /// The quote character selected by the options.
    pub open spec fn spec_quote(self) -> char {
        if self.use_single_quote {
            '\''
        } else {
            '"'
        }
    }

    /// Returns the quote character selected by the options.
    pub fn quote(&self) -> (r: char)
        ensures
            r == self.spec_quote(),
    {
        if self.use_single_quote {
            '\''
        } else {
            '"'
        }
    }
}

} // verus!
