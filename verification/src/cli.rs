//! What the command line of the plain server holds.

use vstd::prelude::*;
use vstd::string::*;

verus! {

/// The address that the server binds to unless told otherwise.
pub const DEFAULT_BIND: &'static str = "127.0.0.1:3100";

/// The arguments of the server.
#[derive(Debug)]
pub struct Args {
    /// The address to bind to.
    pub bind: String,
    /// The bearer key that requests have to carry, if one was given.
    pub auth_key: Option<String>,
    /// The category names, in the order in which they are offered to the model.
    pub categories: Vec<String>,
}

/// The category names that are used unless others are given.
pub open spec fn default_category_names() -> Seq<Seq<char>> {
    seq![
        "Gorceries"@,
        "Transport"@,
        "Rent"@,
        "Entertainment"@,
        "Shopping"@,
        "Drink"@,
        "Food"@,
        "Drink"@,
    ]
}

impl Args {
    /// The category names that are used unless others are given.
    pub fn default_categories() -> (names: Vec<String>)
        ensures
            crate::text::texts(names@) == default_category_names(),
    {
        let mut names: Vec<String> = Vec::with_capacity(8);
        names.push(String::from_str("Gorceries"));
        names.push(String::from_str("Transport"));
        names.push(String::from_str("Rent"));
        names.push(String::from_str("Entertainment"));
        names.push(String::from_str("Shopping"));
        names.push(String::from_str("Drink"));
        names.push(String::from_str("Food"));
        names.push(String::from_str("Drink"));
        assert(crate::text::texts(names@) =~= default_category_names());
        names
    }
}

impl Default for Args {
    /// The arguments of a server that was started without any.
    fn default() -> (args: Self)
        ensures
            args.bind@ == DEFAULT_BIND@,
            args.auth_key is None,
            crate::text::texts(args.categories@) == default_category_names(),
    {
        Args {
            bind: String::from_str(DEFAULT_BIND),
            auth_key: None,
            categories: Args::default_categories(),
        }
    }
}

} // verus!
