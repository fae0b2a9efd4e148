//! Decorative text: the whitespace and comments that surround a key, a value
//! or a table header, kept so that untouched text is written back as it was read.

use vstd::prelude::*;

verus! {

/// The text before and after a key, a value or a table header.
#[derive(Debug)]
pub struct Decor {
    prefix: String,
    suffix: String,
}

/// What a [`Decor`] holds, as sequences of characters.
pub struct DecorView {
    pub prefix: Seq<char>,
    pub suffix: Seq<char>,
}

impl View for Decor {
    type V = DecorView;

    closed spec fn view(&self) -> DecorView {
        DecorView { prefix: self.prefix@, suffix: self.suffix@ }
    }
}

impl Decor {
    /// A decor with the given leading and trailing text.
    pub fn new(prefix: &str, suffix: &str) -> (r: Decor)
        ensures
            r@ == (DecorView { prefix: prefix@, suffix: suffix@ }),
    {
        Decor { prefix: prefix.to_owned(), suffix: suffix.to_owned() }
    }

    /// The text in front.
    pub fn prefix(&self) -> (r: &str)
        ensures
            r@ == self@.prefix,
    {
        self.prefix.as_str()
    }

    /// The text behind.
    pub fn suffix(&self) -> (r: &str)
        ensures
            r@ == self@.suffix,
    {
        self.suffix.as_str()
    }
}

impl Clone for Decor {
    fn clone(&self) -> (r: Decor)
        ensures
            r == *self,
    {
        Decor { prefix: self.prefix.clone(), suffix: self.suffix.clone() }
    }
}

impl Default for Decor {
    /// A decor with no text on either side.
    fn default() -> (r: Decor)
        ensures
            r@ == (DecorView { prefix: Seq::empty(), suffix: Seq::empty() }),
    {
        Decor { prefix: String::new(), suffix: String::new() }
    }
}

/// A piece of source text as it was written, with the decor around it.
#[derive(Debug)]
pub struct Repr {
    pub decor: Decor,
    pub raw_value: String,
}

/// What a [`Repr`] holds, as sequences of characters.
pub struct ReprView {
    pub decor: DecorView,
    pub raw_value: Seq<char>,
}

impl View for Repr {
    type V = ReprView;

    open spec fn view(&self) -> ReprView {
        ReprView { decor: self.decor@, raw_value: self.raw_value@ }
    }
}

impl Clone for Repr {
    fn clone(&self) -> (r: Repr)
        ensures
            r == *self,
    {
        Repr { decor: self.decor.clone(), raw_value: self.raw_value.clone() }
    }
}

impl Repr {
    /// The text `raw` inside the decor `decor`.
    pub fn new(decor: Decor, raw: &str) -> (r: Repr)
        ensures
            r@ == (ReprView { decor: decor@, raw_value: raw@ }),
    {
        Repr { decor, raw_value: raw.to_owned() }
    }
}

} // verus!
