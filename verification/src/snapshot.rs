//! Names of the files that a crawl writes.

use vstd::prelude::*;
use crate::utils::{normalized, prep_name_for_file};

verus! {

/// The decimal digit for a number below ten.
pub open spec fn digit(d: nat) -> char {
    if d == 0 {
        '0'
    } else if d == 1 {
        '1'
    } else if d == 2 {
        '2'
    } else if d == 3 {
        '3'
    } else if d == 4 {
        '4'
    } else if d == 5 {
        '5'
    } else if d == 6 {
        '6'
    } else if d == 7 {
        '7'
    } else if d == 8 {
        '8'
    } else {
        '9'
    }
}

/// The decimal numeral of `n`, without leading zeros.
pub open spec fn decimal(n: nat) -> Seq<char>
    decreases n,
{
    if n < 10 {
        seq![digit(n)]
    } else {
        decimal(n / 10).push(digit(n % 10))
    }
}

/// The name of the snapshot taken at `seconds` after the epoch.
pub open spec fn snapshot_name(seconds: nat) -> Seq<char> {
    "RecipeBook-"@ + decimal(seconds) + ".json"@
}

/// The folder that a recipe file goes to: the one given, or the current one.
pub open spec fn folder_or_here(folder: Option<&str>) -> Seq<char> {
    match folder {
        Some(path) => path@,
        None => "."@,
    }
}

/// Executable form of [`digit`].
fn digit_char(d: u64) -> (c: char)
    requires
        d < 10,
    ensures
        c == digit(d as nat),
{
    if d == 0 {
        '0'
    } else if d == 1 {
        '1'
    } else if d == 2 {
        '2'
    } else if d == 3 {
        '3'
    } else if d == 4 {
        '4'
    } else if d == 5 {
        '5'
    } else if d == 6 {
        '6'
    } else if d == 7 {
        '7'
    } else if d == 8 {
        '8'
    } else {
        '9'
    }
}

/// Appends the decimal numeral of `n` to `text`.
pub fn push_decimal(text: &mut String, n: u64)
    ensures
        final(text)@ == old(text)@ + decimal(n as nat),
    decreases n,
{
    if n >= 10 {
        push_decimal(text, n / 10);
    }
    text.push(digit_char(n % 10));
    assert(text@ =~= old(text)@ + decimal(n as nat));
}

/// The file name of the snapshot taken at `seconds` after the epoch.
pub fn snapshot_file_name(seconds: u64) -> (name: String)
    ensures
        name@ == snapshot_name(seconds as nat),
{
    let mut name = "RecipeBook-".to_owned();
    push_decimal(&mut name, seconds);
    name.append(".json");
    name
}

/// The path of the snapshot taken at `seconds` after the epoch, in
/// `directory`.
pub fn snapshot_path(directory: &str, seconds: u64) -> (path: String)
    ensures
        path@ == directory@ + "/"@ + snapshot_name(seconds as nat),
{
    let mut path = directory.to_owned();
    path.append("/");
    path.append(snapshot_file_name(seconds).as_str());
    path
}

/// The path of the file for the recipe called `name`: in `folder`, or in the
/// current folder where none is given, under the key of the name.
pub fn recipe_file_path(folder: Option<&str>, name: &str) -> (path: String)
    ensures
        path@ == folder_or_here(folder) + "/"@ + normalized(name@) + ".json"@,
{
    let mut path = match folder {
        Some(given) => given.to_owned(),
        None => ".".to_owned(),
    };
    path.append("/");
    path.append(prep_name_for_file(name).as_str());
    path.append(".json");
    path
}

} // verus!
