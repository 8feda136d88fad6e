pub mod objects;
pub mod results;

pub use objects::ModMap;
pub use objects::Modification;
pub use objects::ModificationType;
pub use objects::ModificationValue;
pub use objects::ObjectModificationTable;
pub use objects::ObjectType;
pub use objects::TableType;
pub use results::TranslationError;
