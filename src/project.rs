//! Products, their trials and the purposes of each trial, as the study
//! folders lay them out.

use vstd::prelude::*;
use crate::render::strings_view;
use crate::text::concat;

verus! {

#[verifier::external_type_specification]
#[verifier::external_body]
pub struct ExRegex(regex::Regex);

#[verifier::external_type_specification]
#[verifier::external_body]
pub struct ExRegexError(regex::Error);

/// Relies on regex::Regex::new to compile the product folder pattern.
pub assume_specification[ regex::Regex::new ](re: &str) -> (r: Result<regex::Regex, regex::Error>);

/// Relies on regex::Regex::is_match to test a folder name against it.
pub assume_specification[ regex::Regex::is_match ](
    re: &regex::Regex,
    haystack: &str,
) -> bool;

/// The names of product folders.
pub const PRODUCT_PATTERN: &'static str = r"^ak\d{3}$";

/// Why the product folders could not be told apart.
#[derive(Clone, Copy, Debug, PartialEq, Eq, Structural)]
pub enum ProjectError {
    /// The product folder pattern did not compile.
    Pattern,
}

#[derive(Clone, Debug)]
pub struct Purpose {
    pub id: String,
    pub name: String,
}

#[derive(Clone, Debug)]
pub struct Trial {
    pub id: String,
    pub name: String,
    pub purpose: Vec<Purpose>,
}

#[derive(Clone, Debug)]
pub struct Product {
    pub id: String,
    pub name: String,
    pub trials: Vec<Trial>,
}

/// The id of a child folder: the parent's id, a hyphen, the child's name.
pub open spec fn child_id(parent: Seq<char>, name: Seq<char>) -> Seq<char> {
    parent + "-"@ + name
}

fn make_id(parent: &str, name: &str) -> (r: String)
    ensures
        r@ == child_id(parent@, name@),
{
    let s = concat(parent, "-");
    concat(s.as_str(), name)
}

impl Trial {
    /// Trial `trial` of product `product`, with the purposes named
    /// `purposes`, in order.
    pub fn new(product: &str, trial: &str, purposes: &Vec<String>) -> (r: Trial)
        ensures
            r.id@ == child_id(product@, trial@),
            r.name@ == trial@,
            r.purpose@.len() == purposes@.len(),
            forall|j: int|
                0 <= j < purposes@.len() ==> (#[trigger] r.purpose@[j]).name@ == purposes@[j]@
                    && r.purpose@[j].id@ == child_id(child_id(product@, trial@), purposes@[j]@),
    {
        let id = make_id(product, trial);
        let mut purpose: Vec<Purpose> = Vec::new();
        let mut i: usize = 0;
        while i < purposes.len()
            invariant
                i <= purposes@.len(),
                purpose@.len() == i,
                id@ == child_id(product@, trial@),
                forall|j: int|
                    0 <= j < i ==> (#[trigger] purpose@[j]).name@ == purposes@[j]@
                        && purpose@[j].id@ == child_id(id@, purposes@[j]@),
            decreases purposes@.len() - i,
        {
            let p = &purposes[i];
            purpose.push(Purpose { id: make_id(id.as_str(), p.as_str()), name: p.clone() });
            i = i + 1;
        }
        Trial { id, name: trial.to_owned(), purpose }
    }
}

impl Product {
    /// Product `product` with its trials.
    pub fn new(product: &str, trials: Vec<Trial>) -> (r: Product)
        ensures
            r.id@ == product@,
            r.name@ == product@,
            r.trials@ == trials@,
    {
        Product { id: product.to_owned(), name: product.to_owned(), trials }
    }
}

/// The folders among `folders` that hold products, in order.
pub fn select_products(folders: &Vec<String>) -> (r: Result<Vec<String>, ProjectError>)
    ensures
        match r {
            Ok(v) => v@.len() <= folders@.len() && forall|j: int|
                0 <= j < v@.len() ==> strings_view(folders@).contains(#[trigger] v@[j]@),
            Err(e) => e == ProjectError::Pattern,
        },
{
    let pattern = match regex::Regex::new(PRODUCT_PATTERN) {
        Ok(p) => p,
        Err(_) => {
            return Err(ProjectError::Pattern);
        },
    };
    let mut products: Vec<String> = Vec::new();
    let mut i: usize = 0;
    while i < folders.len()
        invariant
            i <= folders@.len(),
            products@.len() <= i,
            forall|j: int|
                0 <= j < products@.len() ==> strings_view(folders@).contains(
                    #[trigger] products@[j]@,
                ),
        decreases folders@.len() - i,
    {
        if pattern.is_match(folders[i].as_str()) {
            assert(strings_view(folders@)[i as int] == folders@[i as int]@);
            products.push(folders[i].clone());
        }
        i = i + 1;
    }
    Ok(products)
}

} // verus!
