//! The mosaic layer's options panel: what it shows, and what a change of it does.
use std::sync::Arc;
use vstd::prelude::*;
use crate::controls::{
    error_lines,
    fetch_lines,
    line,
    push_error,
    push_fetch_lines,
    push_info,
    push_item,
    refresh_buttons,
    refresh_row,
    ControlEffect,
    ControlItem,
    ControlUpdate,
    ControlValue,
    ItemView,
};
use crate::mrms::product::{blank_text, MrmsGrid, MrmsProduct, ProductTable};
use crate::mrms::{MrmsHandler, MrmsPaneState};
use crate::pane::Pane;
use crate::recency::{held, law_touch_keeps_values, looked_up, touched};
use crate::state::{bump, next_generation};
use crate::text::same_text;

verus! {

/// The layer's name, and the valid time of the mosaic on the glass: when it was
/// fetched is another fact.
pub open spec fn toggle_label(grid: Option<Arc<MrmsGrid>>) -> Seq<char> {
    match grid {
        Some(g) => "MRMS Mosaic ("@ + g.valid.clock_view() + ")"@,
        None => "MRMS Mosaic"@,
    }
}

fn label_of(grid: &Option<Arc<MrmsGrid>>) -> (label: String)
    ensures
        label@ == toggle_label(*grid),
{
    match grid {
        Some(g) => {
            let mut label = "MRMS Mosaic (".to_owned();
            label.append(g.valid.clock().as_str());
            label.append(")");
            label
        },
        None => "MRMS Mosaic".to_owned(),
    }
}

/// Why nothing of the mosaic on the glass shows, where nothing does.
pub open spec fn notice_lines(grid: Option<Arc<MrmsGrid>>) -> Seq<ItemView> {
    match grid {
        Some(g) => if g.visible_points == 0 {
            seq![line(blank_text())]
        } else {
            Seq::empty()
        },
        None => Seq::empty(),
    }
}

fn push_notice(items: &mut Vec<ControlItem>, grid: &Option<Arc<MrmsGrid>>)
    ensures
        final(items).deep_view() == old(items).deep_view() + notice_lines(*grid),
{
    if let Some(g) = grid {
        if let Some(notice) = g.blank_notice() {
            push_info(items, notice);
        }
    }
    assert(items.deep_view() =~= old(items).deep_view() + notice_lines(*grid));
}

/// The rows above the refresh row.
pub open spec fn pickers(
    products: &ProductTable,
    view: MrmsPaneState,
    grid: Option<Arc<MrmsGrid>>,
) -> Seq<ItemView> {
    seq![
        ItemView::Toggle { id: "enabled"@, label: toggle_label(grid), enabled: view.enabled },
        ItemView::Dropdown {
            id: "product"@,
            label: "Product"@,
            options: products.options_view(),
            selected: products.row_of(view.selected_product).code@,
        },
    ]
}

/// The whole panel.
pub open spec fn panel(
    products: &ProductTable,
    view: MrmsPaneState,
    grid: Option<Arc<MrmsGrid>>,
    fetching: bool,
    age: Option<u64>,
    error: Option<Seq<char>>,
) -> Seq<ItemView> {
    pickers(products, view, grid) + seq![refresh_row(!fetching)] + fetch_lines(fetching, age)
        + error_lines(error) + notice_lines(grid)
}

/// What a change of the panel asks for.
#[derive(Debug)]
pub enum PanelStep {
    Ignored,
    /// The layer is turned on or off.
    Switched(bool),
    /// The pane is to show another product.
    Moved(MrmsProduct),
    Refreshed,
}

/// What a change of the panel asks of a pane. A product nobody registered is
/// ignored.
pub open spec fn step(products: &ProductTable, view: MrmsPaneState, update: ControlUpdate) -> PanelStep {
    if update.id@ == "enabled"@ {
        match update.value {
            ControlValue::Bool(on) => PanelStep::Switched(on),
            _ => PanelStep::Ignored,
        }
    } else if update.id@ == "product"@ {
        match update.value {
            ControlValue::Text(text) => match products.of_code(text@) {
                Some(product) => if product != view.selected_product {
                    PanelStep::Moved(product)
                } else {
                    PanelStep::Ignored
                },
                None => PanelStep::Ignored,
            },
            _ => PanelStep::Ignored,
        }
    } else if update.id@ == "refresh"@ {
        PanelStep::Refreshed
    } else {
        PanelStep::Ignored
    }
}

impl MrmsHandler {
    /// The options panel. It is shown whether or not the layer is.
    pub fn controls(&mut self, pane: &Pane<MrmsPaneState>, clock: u64) -> (items: Vec<ControlItem>)
        requires
            old(self).wf(),
        ensures
            final(self).wf(),
            final(self).same_but_use(old(self)),
            final(self).state == old(self).state,
            final(self).defaults == old(self).defaults,
            ({
                let view = pane.own_or(old(self).defaults);
                let entries = old(self).cached_grids.entries();
                &&& final(self).cached_grids.entries() == touched(entries, view.selected_product)
                &&& items.deep_view() == panel(
                    &old(self).products,
                    view,
                    looked_up(entries, view.selected_product),
                    old(self).state.fetching,
                    old(self).state.age(clock),
                    old(self).last_error.deep_view(),
                )
            }),
    {
        let view = pane.view_or(&self.defaults);
        proof {
            law_touch_keeps_values(self.cached_grids.entries(), view.selected_product);
        }
        let grid = self.cached_grids.get(view.selected_product);
        let mut items: Vec<ControlItem> = Vec::new();
        assert(items.deep_view() =~= Seq::empty());
        push_item(
            &mut items,
            ControlItem::Toggle { id: "enabled", label: label_of(&grid), enabled: view.enabled },
        );
        push_item(
            &mut items,
            ControlItem::Dropdown {
                id: "product",
                label: "Product".to_owned(),
                options: self.products.options(),
                selected: self.products.row(view.selected_product).code.clone(),
            },
        );
        let ghost picking = items.deep_view();
        assert(picking =~= pickers(&self.products, view, grid));
        push_item(&mut items, refresh_buttons(!self.state.fetching));
        assert(items.deep_view() =~= picking + seq![refresh_row(!self.state.fetching)]);
        push_fetch_lines(&mut items, self.state.fetching, self.state.elapsed(clock));
        push_error(&mut items, &self.last_error);
        push_notice(&mut items, &grid);
        items
    }

    /// Takes a change of the panel in.
    pub fn apply_control(&mut self, update: &ControlUpdate, pane: &mut Pane<MrmsPaneState>) -> (
    effect: ControlEffect)
        requires
            old(self).wf(),
        ensures
            final(self).wf(),
            final(self).same_but_use(old(self)),
            final(pane).peers == old(pane).peers,
            (final(pane).state is Some) == (old(pane).state is Some),
            old(pane).state is Some ==> final(self).defaults == old(self).defaults,
            ({
                let view = old(pane).own_or(old(self).defaults);
                let after = final(pane).own_or(final(self).defaults);
                let entries = old(self).cached_grids.entries();
                let generation = old(self).state.data_generation;
                match step(&old(self).products, view, *update) {
                    PanelStep::Ignored => {
                        &&& after == view
                        &&& effect == ControlEffect::Nothing
                        &&& final(self).cached_grids.entries() == entries
                        &&& final(self).state.data_generation == generation
                    },
                    PanelStep::Refreshed => {
                        &&& after == view
                        &&& effect == ControlEffect::Fetch
                        &&& final(self).cached_grids.entries() == entries
                        &&& final(self).state.data_generation == generation
                    },
                    PanelStep::Switched(on) => {
                        &&& after == (MrmsPaneState { enabled: on, ..view })
                        &&& effect == (if on && !held(entries, view.selected_product) {
                            ControlEffect::Fetch
                        } else {
                            ControlEffect::Nothing
                        })
                        &&& final(self).cached_grids.entries() == (if on {
                            touched(entries, view.selected_product)
                        } else {
                            entries
                        })
                        &&& final(self).state.data_generation == generation
                    },
                    PanelStep::Moved(product) => {
                        let resident = held(entries, product);
                        &&& after == (MrmsPaneState { selected_product: product, ..view })
                        &&& effect == (if resident {
                            ControlEffect::Nothing
                        } else {
                            ControlEffect::Fetch
                        })
                        &&& final(self).cached_grids.entries() == touched(entries, product)
                        &&& final(self).state.data_generation == (if resident {
                            next_generation(generation)
                        } else {
                            generation
                        })
                    },
                }
            }),
    {
        let view = pane.view_or(&self.defaults);
        if same_text(update.id, "enabled") {
            if let ControlValue::Bool(on) = update.value {
                let mut next = view;
                next.enabled = on;
                pane.put(&mut self.defaults, next);
                if on && !self.has_data(pane) {
                    return ControlEffect::Fetch;
                }
            }
            return ControlEffect::Nothing;
        }
        if same_text(update.id, "product") {
            if let ControlValue::Text(text) = &update.value {
                if let Some(product) = self.products.parse(text.as_str()) {
                    if product != view.selected_product {
                        let mut next = view;
                        next.selected_product = product;
                        pane.put(&mut self.defaults, next);
                        if self.has_data(pane) {
                            self.state.data_generation = bump(self.state.data_generation);
                            return ControlEffect::Nothing;
                        }
                        return ControlEffect::Fetch;
                    }
                }
            }
            return ControlEffect::Nothing;
        }
        if same_text(update.id, "refresh") {
            return ControlEffect::Fetch;
        }
        ControlEffect::Nothing
    }
}

/// A control moves what it is of and nothing else: the switch turns the layer, the
/// product's dropdown moves to a product that is registered under the text and is
/// not the pane's already, and the refresh asks again.
pub proof fn law_a_control_moves_only_its_own(
    products: &ProductTable,
    view: MrmsPaneState,
    update: ControlUpdate,
    product: MrmsProduct,
)
    requires
        products.wf(),
    ensures
        update.id@ == "enabled"@ ==> match update.value {
            ControlValue::Bool(on) => step(products, view, update) == PanelStep::Switched(on),
            _ => step(products, view, update) is Ignored,
        },
        update.id@ == "product"@ ==> match update.value {
            ControlValue::Text(text) => text@ == products.row_of(product).code@ ==> (if product
                == view.selected_product {
                step(products, view, update) is Ignored
            } else {
                step(products, view, update) == PanelStep::Moved(product)
            }),
            _ => step(products, view, update) is Ignored,
        },
        step(products, view, update) matches PanelStep::Moved(next) ==> update.id@ == "product"@
            && next != view.selected_product,
        update.id@ == "refresh"@ ==> step(products, view, update) is Refreshed,
{
    reveal_strlit("enabled");
    reveal_strlit("product");
    reveal_strlit("refresh");
    assert("enabled"@[0] == 'e' && "product"@[0] == 'p' && "refresh"@[0] == 'r');
    products.law_code_reads_back(product);
}

/// The panel says that nothing shows exactly where a mosaic is held and nothing of
/// it reaches the lowest colour band.
pub proof fn law_a_blank_mosaic_says_so(grid: Arc<MrmsGrid>)
    ensures
        grid.visible_points == 0 ==> notice_lines(Some(grid)) == seq![
            line("Nothing reaches the lowest colour band"@),
        ],
        grid.visible_points > 0 ==> notice_lines(Some(grid)).len() == 0,
        notice_lines(None).len() == 0,
{
}

} // verus!
