pub mod tooltip;
