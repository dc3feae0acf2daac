pub mod diagnostic;
pub mod request;
pub mod response;

pub use diagnostic::{DiagnosticSeverity, ReaderDiagnostic};
pub use request::{ReadRequest, ReaderInput};
pub use response::ReaderOutput;
