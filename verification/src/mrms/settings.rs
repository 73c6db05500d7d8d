//! A mosaic pane's settings, saved and restored.
use vstd::prelude::*;
use crate::json;
use crate::json::{bool_member, json_is_object, json_members, no_members, text_member, Member};
use crate::mrms::product::{MrmsProduct, ProductTable};
use crate::mrms::MrmsPaneState;

verus! {

/// What a pane saves.
pub open spec fn saved(products: &ProductTable, state: MrmsPaneState) -> Map<Seq<char>, Member> {
    no_members().insert("enabled"@, Member::Bool(state.enabled)).insert(
        "product"@,
        Member::Text(products.row_of(state.selected_product).code@),
    )
}

pub fn serialize_pane_state(products: &ProductTable, state: &MrmsPaneState) -> (value:
    serde_json::Value)
    ensures
        json_is_object(value),
        json_members(value) == saved(products, *state),
{
    let mut value = json::empty_object();
    json::put_bool(&mut value, "enabled", state.enabled);
    json::put_text(&mut value, "product", products.row(state.selected_product).code.as_str());
    value
}

/// The pane settings are restored to. What they do not name is a fresh pane's.
pub open spec fn reopened(
    products: &ProductTable,
    value: serde_json::Value,
    enabled: bool,
) -> MrmsPaneState {
    MrmsPaneState {
        enabled: match bool_member(value, "enabled"@) {
            Some(on) => on,
            None => enabled,
        },
        selected_product: match text_member(value, "product"@) {
            Some(text) => match products.of_code(text) {
                Some(product) => product,
                None => MrmsProduct::ReflectivityComposite,
            },
            None => MrmsProduct::ReflectivityComposite,
        },
    }
}

pub fn deserialize_pane_state(products: &ProductTable, value: &serde_json::Value, enabled: bool) -> (
state: MrmsPaneState)
    ensures
        state == reopened(products, *value, enabled),
{
    let mut state = MrmsPaneState::new(enabled);
    if let Some(on) = json::get_bool(value, "enabled") {
        state.enabled = on;
    }
    if let Some(text) = json::get_text(value, "product") {
        if let Some(product) = products.parse(text.as_str()) {
            state.selected_product = product;
        }
    }
    state
}

/// Saving a pane and reopening it gives the pane back, whatever the slot it is
/// put in says.
pub proof fn law_reopen_is_exact(
    products: &ProductTable,
    state: MrmsPaneState,
    value: serde_json::Value,
    enabled: bool,
)
    requires
        products.wf(),
        json_members(value) == saved(products, state),
    ensures
        reopened(products, value, enabled) == state,
{
    reveal_strlit("enabled");
    reveal_strlit("product");
    assert("enabled"@[0] == 'e' && "product"@[0] == 'p');
    products.law_code_reads_back(state.selected_product);
}

/// What settings do not say, or name by a code nobody registered, is a fresh
/// pane's.
pub proof fn law_what_is_not_saved_is_fresh(
    products: &ProductTable,
    value: serde_json::Value,
    enabled: bool,
    product: MrmsProduct,
)
    requires
        products.wf(),
    ensures
        bool_member(value, "enabled"@) is None ==> reopened(products, value, enabled).enabled
            == enabled,
        bool_member(value, "enabled"@) matches Some(on) ==> reopened(
            products,
            value,
            enabled,
        ).enabled == on,
        text_member(value, "product"@) is None ==> reopened(
            products,
            value,
            enabled,
        ).selected_product == MrmsPaneState::fresh(enabled).selected_product,
        text_member(value, "product"@) == Some(products.row_of(product).code@) ==> reopened(
            products,
            value,
            enabled,
        ).selected_product == product,
        text_member(value, "product"@) matches Some(text) ==> (forall|p: MrmsProduct|
            (#[trigger] products.row_of(p)).code@ != text) ==> reopened(
            products,
            value,
            enabled,
        ).selected_product == MrmsPaneState::fresh(enabled).selected_product,
{
    products.law_code_reads_back(product);
    let text = text_member(value, "product"@);
    if text is Some {
        assert(products.row_of(MrmsProduct::ReflectivityComposite).code@
            == products.composite.code@);
        assert(products.row_of(MrmsProduct::PrecipRate).code@ == products.rate.code@);
    }
}

} // verus!
