//! Text as sequences of characters: the string operations the shell needs,
//! each with a specification over `Seq<char>`.

pub mod chars;
pub mod lines;
pub mod number;
pub mod ospath;
pub mod paths;
pub mod percent;
pub mod sorting;
