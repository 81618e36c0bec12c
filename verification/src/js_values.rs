//! What the store hands to the host for a value.

use vstd::prelude::*;

verus! {

/// A value on its way to the host.
#[derive(Debug)]
pub enum JsValue {
    /// Null, a boolean, a number or a string, as JSON text.
    Primitive(String),
    /// A value that the host owns already, by its handle.
    Object(u64),
    /// An array or an object that the host has not seen yet, as JSON text.
    /// The host makes its own value of it and binds the handle to the key.
    Unbound(String),
}

/// A value on its way to the host as contracts see it.
pub enum JsValueView {
    Primitive(Seq<char>),
    Object(u64),
    Unbound(Seq<char>),
}

impl View for JsValue {
    type V = JsValueView;

    open spec fn view(&self) -> JsValueView {
        match self {
            JsValue::Primitive(text) => JsValueView::Primitive(text@),
            JsValue::Object(handle) => JsValueView::Object(*handle),
            JsValue::Unbound(text) => JsValueView::Unbound(text@),
        }
    }
}

impl DeepView for JsValue {
    type V = JsValueView;

    open spec fn deep_view(&self) -> JsValueView {
        self@
    }
}

} // verus!
