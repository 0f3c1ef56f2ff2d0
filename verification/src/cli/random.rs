//! `webman random`: random strings of a given length.
use vstd::prelude::*;
use crate::utils::{random_digits, random_characters, random_hex, is_digit, is_alphanumeric, is_hex};

pub mod digits;
pub mod characters;
pub mod hex;

verus! {

/// The kind of random string asked for, if any.
pub struct Args {
    pub command: Option<Commands>,
}

/// The kinds of random strings.
pub enum Commands {
    Digits(digits::Args),
    Characters(characters::Args),
    Hex(hex::Args),
}

/// The line `webman random` prints: a random string of the requested kind
/// and length.
pub fn action(cmd: Commands) -> (r: String)
    ensures
        match cmd {
            Commands::Digits(a) => r@.len() == a.length && forall|i: int|
                0 <= i < r@.len() ==> is_digit(#[trigger] r@[i]),
            Commands::Characters(a) => r@.len() == a.length && forall|i: int|
                0 <= i < r@.len() ==> is_alphanumeric(#[trigger] r@[i]),
            Commands::Hex(a) => r@.len() == a.length && forall|i: int|
                0 <= i < r@.len() ==> is_hex(#[trigger] r@[i]),
        },
{
    match cmd {
        Commands::Digits(args) => random_digits(args.length),
        Commands::Characters(args) => random_characters(args.length),
        Commands::Hex(args) => random_hex(args.length),
    }
}

} // verus!
