pub mod variable_deallocation;
