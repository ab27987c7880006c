//! The record model: one [`PluItem`] per catalog entry variant, gathered in a
//! [`PluCollection`]. Contracts speak of the mathematical view [`PluItemV`],
//! in which every string is a `Seq<char>`.

use vstd::prelude::*;

verus! {

/// Mathematical view of a [`PluItem`]: each field as a sequence value.
#[verifier::ext_equal]
pub struct PluItemV {
    pub name: Seq<char>,
    pub plu_codes: Seq<u32>,
    pub category_path: Seq<Seq<char>>,
    pub alternative_name: Option<Seq<char>>,
    pub characteristics: Seq<Seq<char>>,
    pub size: Option<Seq<char>>,
}

/// A specific product variety with its PLU codes and category.
#[derive(Debug, Clone, PartialEq, Eq)]
pub struct PluItem {
    /// The specific name of the item, often including size or type,
    /// e.g. "Akane, small".
    pub name: String,
    /// PLU codes associated with this specific item, in catalog order.
    pub plu_codes: Vec<u32>,
    /// The category hierarchy above the item: top category and, when the item
    /// sat under a sub-category header, that sub-category.
    pub category_path: Vec<String>,
    /// Optional alternative name, e.g. "Southern Rose, small".
    pub alternative_name: Option<String>,
    /// Free-text descriptive annotations, e.g. "3-7 pounds".
    pub characteristics: Vec<String>,
    /// Normalized size label when the line carried one.
    pub size: Option<String>,
}

impl View for PluItem {
    type V = PluItemV;

    open spec fn view(&self) -> PluItemV {
        PluItemV {
            name: self.name@,
            plu_codes: self.plu_codes@,
            category_path: self.category_path.deep_view(),
            alternative_name: self.alternative_name.deep_view(),
            characteristics: self.characteristics.deep_view(),
            size: self.size.deep_view(),
        }
    }
}

impl DeepView for PluItem {
    type V = PluItemV;

    open spec fn deep_view(&self) -> PluItemV {
        self.view()
    }
}

impl PluItem {
    /// Builds a record out of its six fields, unchanged.
    pub fn new(
        name: String,
        plu_codes: Vec<u32>,
        category_path: Vec<String>,
        alternative_name: Option<String>,
        characteristics: Vec<String>,
        size: Option<String>,
    ) -> (r: PluItem)
        ensures
            r@ == (PluItemV {
                name: name@,
                plu_codes: plu_codes@,
                category_path: category_path.deep_view(),
                alternative_name: alternative_name.deep_view(),
                characteristics: characteristics.deep_view(),
                size: size.deep_view(),
            }),
    {
        PluItem { name, plu_codes, category_path, alternative_name, characteristics, size }
    }
}

/// The collection of all parsed PLU items, in the order the catalog text
/// produced them.
#[derive(Debug, Default)]
pub struct PluCollection {
    pub items: Vec<PluItem>,
}

impl View for PluCollection {
    type V = Seq<PluItemV>;

    open spec fn view(&self) -> Seq<PluItemV> {
        self.items.deep_view()
    }
}

} // verus!
