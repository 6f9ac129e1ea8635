pub mod numeral;

pub mod tree;

pub mod chars;

pub mod postfix;
