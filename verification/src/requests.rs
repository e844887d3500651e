//! Request shapes for store operations, and the rules that turn an add
//! request into a storable item.
use vstd::prelude::*;

use crate::path_gen::{generate_custom_path, spec_custom_path};
use crate::store::{ShoppingListItem, ShoppingListItemKind};
use crate::text::{chars_to_string, spec_free_of, spec_is_space, spec_trim, str_to_chars, trim_chars};

verus! {

/// A rejected request: the input, not the store, is at fault.
#[derive(Debug)]
pub enum ClientInputError {
    /// An add request with no usable path and a blank name.
    MissingName,
    /// A recipe reference that could not be resolved during aggregation.
    InvalidRecipe(String),
}

impl ClientInputError {
    /// A short description of the rejection.
    pub fn message(&self) -> (r: String)
        ensures
            self matches ClientInputError::InvalidRecipe(m) ==> r@ == m@,
    {
        match self {
            ClientInputError::MissingName => String::from_str("name must not be empty"),
            ClientInputError::InvalidRecipe(m) => m.clone(),
        }
    }
}

/// A request to add one reference to the store. The scale is decimal
/// text and defaults to `1`; the kind defaults to `Recipe`.
pub struct AddItemRequest {
    pub path: Option<String>,
    pub name: String,
    pub scale: String,
    pub kind: ShoppingListItemKind,
    pub quantity: Option<String>,
}

/// A request to remove the first reference with the given path.
pub struct RemoveItemRequest {
    pub path: String,
}

/// The provided path of an add request, trimmed; empty when absent.
pub open spec fn spec_provided_path(req: AddItemRequest) -> Seq<char> {
    spec_trim(
        match req.path {
            Some(p) => p@,
            None => Seq::empty(),
        },
    )
}

/// Turn an add request into the item to store. A request with a usable
/// (non-blank) path keeps it, trimmed; one without a path but with a
/// non-blank name gets a generated `custom:` path, whatever its kind;
/// one with neither a usable path nor a non-blank name is rejected —
/// there is nothing to derive a path from.
pub fn resolve_add_request(req: AddItemRequest) -> (r: Result<ShoppingListItem, ClientInputError>)
    ensures
        r is Err <==> spec_provided_path(req).len() == 0 && spec_trim(req.name@).len() == 0,
        match r {
            Ok(item) => {
                &&& item@.name == req.name@
                &&& item@.scale == req.scale@
                &&& item@.kind == req.kind
                &&& item@.quantity == (match req.quantity {
                    Some(q) => Some::<Seq<char>>(q@),
                    None => None::<Seq<char>>,
                })
                &&& spec_provided_path(req).len() > 0 ==> item@.path == spec_provided_path(req)
                &&& spec_provided_path(req).len() == 0 ==> (exists|t: u64|
                    item@.path == spec_custom_path(req.name@, t)) && spec_free_of(
                    item@.path,
                    '\t',
                ) && spec_free_of(item@.path, '\n') && !spec_is_space(item@.path[0])
                    && item@.path[0] != '#'
                &&& item@.path.len() > 0
            },
            Err(e) => e matches ClientInputError::MissingName,
        },
{
    let provided = match &req.path {
        Some(p) => {
            let t = trim_chars(&str_to_chars(p.as_str()));
            chars_to_string(&t)
        },
        None => {
            proof {
                assert(spec_trim(Seq::<char>::empty()) =~= Seq::<char>::empty());
            }
            String::new()
        },
    };
    if provided.as_str().unicode_len() == 0 {
        assert(provided@ =~= Seq::<char>::empty());
        let name_trim = trim_chars(&str_to_chars(req.name.as_str()));
        if name_trim.len() == 0 {
            return Err(ClientInputError::MissingName);
        }
        let path = generate_custom_path(req.name.as_str());
        return Ok(
            ShoppingListItem {
                path,
                name: req.name,
                scale: req.scale,
                kind: req.kind,
                quantity: req.quantity,
            },
        );
    }
    Ok(
        ShoppingListItem {
            path: provided,
            name: req.name,
            scale: req.scale,
            kind: req.kind,
            quantity: req.quantity,
        },
    )
}

} // verus!
