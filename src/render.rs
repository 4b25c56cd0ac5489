//! The fields that a program template is filled with, and the bytes of a
//! generated file.

use vstd::prelude::*;
use vstd::string::StringSliceAdditionalSpecFns;

verus! {

/// The fields of one generated program.
#[derive(Clone, Debug)]
pub struct Item {
    pub name: String,
    pub study: String,
    pub engine: String,
    pub purpose: String,
    pub start: String,
    pub description: String,
    pub supp: bool,
    pub developer: String,
    pub slot: Vec<String>,
    pub path: String,
}

pub struct ItemView {
    pub name: Seq<char>,
    pub study: Seq<char>,
    pub engine: Seq<char>,
    pub purpose: Seq<char>,
    pub start: Seq<char>,
    pub description: Seq<char>,
    pub supp: bool,
    pub developer: Seq<char>,
    pub slot: Seq<Seq<char>>,
    pub path: Seq<char>,
}

pub open spec fn strings_view(v: Seq<String>) -> Seq<Seq<char>> {
    v.map_values(|s: String| s@)
}

impl View for Item {
    type V = ItemView;

    open spec fn view(&self) -> ItemView {
        ItemView {
            name: self.name@,
            study: self.study@,
            engine: self.engine@,
            purpose: self.purpose@,
            start: self.start@,
            description: self.description@,
            supp: self.supp,
            developer: self.developer@,
            slot: strings_view(self.slot@),
            path: self.path@,
        }
    }
}

/// The byte-order mark that starts every generated file.
pub open spec fn bom() -> Seq<u8> {
    seq![239u8, 187u8, 191u8]
}

pub struct Render {}

impl Render {
    pub fn new() -> (r: Render) {
        Render {}
    }

    /// The bytes of a generated file whose rendered text is `text`: the
    /// byte-order mark, then the text in UTF-8.
    pub fn encode(&self, text: &str) -> (r: Vec<u8>)
        ensures
            r@ == bom() + text.spec_bytes(),
    {
        let bytes = text.as_bytes();
        let mut data: Vec<u8> = vec![239u8, 187u8, 191u8];
        let mut i: usize = 0;
        while i < bytes.len()
            invariant
                i <= bytes@.len(),
                bytes@ == text.spec_bytes(),
                data@ == bom() + bytes@.take(i as int),
            decreases bytes@.len() - i,
        {
            data.push(bytes[i]);
            assert(bytes@.take(i + 1) =~= bytes@.take(i as int).push(bytes@[i as int]));
            i = i + 1;
        }
        assert(bytes@.take(bytes@.len() as int) =~= bytes@);
        data
    }
}

} // verus!
