//! The shape of the document that holds the response pools.

use vstd::prelude::*;
use crate::error::Error;
use crate::text::texts;
use crate::search::{first_where, lemma_first_where_found, lemma_first_where_none};
use crate::select::{Category, Threshold, QUESTION_KEY};
use crate::text_map::same_text;

verus! {

/// A value of a document.
#[derive(Debug)]
pub enum Json {
    /// The empty value.
    Null,
    /// A truth value.
    Bool(bool),
    /// A number, as it is written.
    Number(String),
    /// A text.
    Text(String),
    /// An array: its items in their order.
    Array(Vec<Json>),
    /// An object: its members in their order, each with its name.
    Object(Vec<(String, Json)>),
}

/// The pools of a category: each threshold with its texts.
pub type Pools = Seq<(Seq<char>, Seq<Seq<char>>)>;

/// The texts of a pool: the value must be an array of texts.
pub open spec fn pool_of(v: Json) -> Option<Seq<Seq<char>>> {
    match v {
        Json::Array(items) => if forall|i: int| 0 <= i < items@.len() ==> #[trigger] items@[i] is Text {
            Some(Seq::new(items@.len(), |i: int| items@[i]->Text_0@))
        } else {
            None
        },
        _ => None,
    }
}

/// The pools of a category: the value must be an object whose members are
/// pools.
pub open spec fn pools_of(v: Json) -> Option<Pools> {
    match v {
        Json::Object(members) => if forall|i: int|
            0 <= i < members@.len() ==> pool_of(#[trigger] members@[i].1) is Some {
            Some(
                Seq::new(
                    members@.len(),
                    |i: int| (members@[i].0@, pool_of(members@[i].1)->Some_0),
                ),
            )
        } else {
            None
        },
        _ => None,
    }
}

/// The categories under a member: the value must be an object whose members
/// are the pools of a category each.
pub open spec fn categories_under(v: Json) -> Option<Seq<(Seq<char>, Pools)>> {
    match v {
        Json::Object(members) => if forall|i: int|
            0 <= i < members@.len() ==> pools_of(#[trigger] members@[i].1) is Some {
            Some(
                Seq::new(
                    members@.len(),
                    |i: int| (members@[i].0@, pools_of(members@[i].1)->Some_0),
                ),
            )
        } else {
            None
        },
        _ => None,
    }
}

/// The categories of a document: the document must be an object, and the
/// first of its members that is named as the column of questions holds the
/// categories.
pub open spec fn categories_of(doc: Json) -> Option<Seq<(Seq<char>, Pools)>> {
    match doc {
        Json::Object(members) => match first_where(
            members@.len() as int,
            |i: int| members@[i].0@ == QUESTION_KEY@,
        ) {
            Some(i) => categories_under(members@[i].1),
            None => None,
        },
        _ => None,
    }
}

/// The pools that a sequence of thresholds holds.
pub open spec fn pools_view(thresholds: Seq<Threshold>) -> Pools {
    Seq::new(thresholds.len(), |i: int| (thresholds[i].key@, texts(thresholds[i].responses@)))
}

/// The categories that a sequence of categories holds.
pub open spec fn categories_view(cats: Seq<Category>) -> Seq<(Seq<char>, Pools)> {
    Seq::new(cats.len(), |i: int| (cats[i].name@, pools_view(cats[i].thresholds@)))
}

#[verifier::loop_isolation(false)]
fn read_pool(v: &Json) -> (r: Option<Vec<String>>)
    ensures
        match r {
            Some(pool) => pool_of(*v) == Some(texts(pool@)),
            None => pool_of(*v) is None,
        },
{
    match v {
        Json::Array(items) => {
            let mut pool: Vec<String> = Vec::new();
            let mut i: usize = 0;
            while i < items.len()
                invariant
                    i <= items@.len(),
                    pool@.len() == i,
                    forall|j: int| 0 <= j < i ==> #[trigger] items@[j] is Text,
                    forall|j: int| 0 <= j < i ==> pool@[j]@ == items@[j]->Text_0@,
                decreases items.len() - i,
            {
                match &items[i] {
                    Json::Text(text) => {
                        pool.push(text.clone());
                    },
                    _ => {
                        assert(!(items@[i as int] is Text));
                        return None;
                    },
                }
                i += 1;
            }
            assert(texts(pool@) =~= pool_of(*v)->Some_0);
            Some(pool)
        },
        _ => None,
    }
}

#[verifier::loop_isolation(false)]
fn read_pools(v: &Json) -> (r: Option<Vec<Threshold>>)
    ensures
        match r {
            Some(thresholds) => pools_of(*v) == Some(pools_view(thresholds@)),
            None => pools_of(*v) is None,
        },
{
    match v {
        Json::Object(members) => {
            let mut thresholds: Vec<Threshold> = Vec::new();
            let mut i: usize = 0;
            while i < members.len()
                invariant
                    i <= members@.len(),
                    thresholds@.len() == i,
                    forall|j: int| 0 <= j < i ==> pool_of(#[trigger] members@[j].1) is Some,
                    forall|j: int|
                        0 <= j < i ==> thresholds@[j].key@ == members@[j].0@ && texts(
                            thresholds@[j].responses@,
                        ) == pool_of(members@[j].1)->Some_0,
                decreases members.len() - i,
            {
                match read_pool(&members[i].1) {
                    Some(responses) => {
                        thresholds.push(Threshold { key: members[i].0.clone(), responses });
                    },
                    None => {
                        assert(pool_of(members@[i as int].1) is None);
                        return None;
                    },
                }
                i += 1;
            }
            assert(pools_view(thresholds@) =~= pools_of(*v)->Some_0);
            Some(thresholds)
        },
        _ => None,
    }
}

#[verifier::loop_isolation(false)]
fn read_categories(v: &Json) -> (r: Option<Vec<Category>>)
    ensures
        match r {
            Some(cats) => categories_under(*v) == Some(categories_view(cats@)),
            None => categories_under(*v) is None,
        },
{
    match v {
        Json::Object(members) => {
            let mut cats: Vec<Category> = Vec::new();
            let mut i: usize = 0;
            while i < members.len()
                invariant
                    i <= members@.len(),
                    cats@.len() == i,
                    forall|j: int| 0 <= j < i ==> pools_of(#[trigger] members@[j].1) is Some,
                    forall|j: int|
                        0 <= j < i ==> cats@[j].name@ == members@[j].0@ && pools_view(
                            cats@[j].thresholds@,
                        ) == pools_of(members@[j].1)->Some_0,
                decreases members.len() - i,
            {
                match read_pools(&members[i].1) {
                    Some(thresholds) => {
                        cats.push(Category { name: members[i].0.clone(), thresholds });
                    },
                    None => {
                        assert(pools_of(members@[i as int].1) is None);
                        return None;
                    },
                }
                i += 1;
            }
            assert(categories_view(cats@) =~= categories_under(*v)->Some_0);
            Some(cats)
        },
        _ => None,
    }
}

/// Reads the categories with their pools from a document. The document
/// must be an object with a member named as the column of questions; that
/// member must be an object of categories, each an object of thresholds,
/// each an array of texts.
#[verifier::loop_isolation(false)]
pub fn response_categories(doc: &Json) -> (r: Result<Vec<Category>, Error>)
    ensures
        match r {
            Ok(cats) => categories_of(*doc) == Some(categories_view(cats@)),
            Err(e) => categories_of(*doc) is None && e == Error::JsonShapeMismatch,
        },
{
    let members = match doc {
        Json::Object(members) => members,
        _ => {
            return Err(Error::JsonShapeMismatch);
        },
    };
    let ghost named = |i: int| members@[i].0@ == QUESTION_KEY@;
    let mut i: usize = 0;
    while i < members.len()
        invariant
            i <= members@.len(),
            forall|j: int| 0 <= j < i ==> !#[trigger] named(j),
        decreases members.len() - i,
    {
        if same_text(members[i].0.as_str(), QUESTION_KEY) {
            proof {
                lemma_first_where_found(members@.len() as int, named, i as int);
            }
            return match read_categories(&members[i].1) {
                Some(cats) => Ok(cats),
                None => Err(Error::JsonShapeMismatch),
            };
        }
        i += 1;
    }
    proof {
        lemma_first_where_none(members@.len() as int, named);
    }
    Err(Error::JsonShapeMismatch)
}

} // verus!
