pub mod design;
