//! MMS (ISO 9506) as IEC 61850-8-1 maps its services onto it.

pub mod alternate;
pub mod association;
pub mod control;
pub mod delete_scope;
pub mod file;
pub mod initiate;
pub mod journal;
pub mod names;
pub mod object_class;
pub mod outstanding;
pub mod pdu;
pub mod read_journal;
pub mod reject;
pub mod report;
pub mod request;
pub mod response;
pub mod service_error;
pub mod typespec;
pub mod variables;
pub mod vmd_logical;
pub mod vmd_physical;
pub mod readings;
pub mod wire;
pub mod writable;

pub use self::alternate::Path as AlternateAccess;
pub use self::alternate::Selector;
pub use self::initiate::Initiate;
pub use self::names::{ObjectName, ObjectScope};
pub use self::pdu::{Mms, Unconfirmed};
pub use self::read_journal::ReadJournal;
pub use self::request::ConfirmedRequest;
pub use self::response::ConfirmedResponse;
pub use self::service_error::ServiceError;
pub use self::variables::{AccessResult, VariableAccess, VariableSpecification, WriteResult};
