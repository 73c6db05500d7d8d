//! The options panel: what a layer offers, and what comes back.
use vstd::prelude::*;
use crate::text::{decimal, decimal_text};

verus! {

/// One button of a row.
#[derive(Debug)]
pub struct ControlButton {
    pub id: &'static str,
    pub label: String,
    pub enabled: bool,
    pub highlight: bool,
}

/// [`ControlButton`] over mathematical values.
pub struct ButtonView {
    pub id: Seq<char>,
    pub label: Seq<char>,
    pub enabled: bool,
    pub highlight: bool,
}

impl DeepView for ControlButton {
    type V = ButtonView;

    open spec fn deep_view(&self) -> ButtonView {
        ButtonView {
            id: self.id@,
            label: self.label@,
            enabled: self.enabled,
            highlight: self.highlight,
        }
    }
}

/// One row of an options panel.
#[derive(Debug)]
pub enum ControlItem {
    Heading { text: String },
    Toggle { id: &'static str, label: String, enabled: bool },
    /// Options are pairs of a value and what it reads as.
    Dropdown {
        id: &'static str,
        label: String,
        options: Vec<(String, String)>,
        selected: String,
    },
    ButtonRow { buttons: Vec<ControlButton> },
    InfoText { text: String },
}

/// [`ControlItem`] over mathematical values.
pub enum ItemView {
    Heading { text: Seq<char> },
    Toggle { id: Seq<char>, label: Seq<char>, enabled: bool },
    Dropdown {
        id: Seq<char>,
        label: Seq<char>,
        options: Seq<(Seq<char>, Seq<char>)>,
        selected: Seq<char>,
    },
    ButtonRow { buttons: Seq<ButtonView> },
    InfoText { text: Seq<char> },
}

impl DeepView for ControlItem {
    type V = ItemView;

    open spec fn deep_view(&self) -> ItemView {
        match *self {
            ControlItem::Heading { text } => ItemView::Heading { text: text@ },
            ControlItem::Toggle { id, label, enabled } => ItemView::Toggle {
                id: id@,
                label: label@,
                enabled,
            },
            ControlItem::Dropdown { id, label, options, selected } => ItemView::Dropdown {
                id: id@,
                label: label@,
                options: options.deep_view(),
                selected: selected@,
            },
            ControlItem::ButtonRow { buttons } => ItemView::ButtonRow {
                buttons: buttons.deep_view(),
            },
            ControlItem::InfoText { text } => ItemView::InfoText { text: text@ },
        }
    }
}

/// What a control was set to.
#[derive(Debug)]
pub enum ControlValue {
    Bool(bool),
    Text(String),
    /// A button was pressed.
    Action,
}

/// One control, set.
#[derive(Debug)]
pub struct ControlUpdate {
    pub id: &'static str,
    pub value: ControlValue,
}

/// What the host must do about it.
#[derive(Clone, Copy, Debug, PartialEq, Eq, Structural)]
pub enum ControlEffect {
    Nothing,
    Fetch,
}

/// The refresh row every fetched layer ends its options with.
pub open spec fn refresh_row(enabled: bool) -> ItemView {
    ItemView::ButtonRow {
        buttons: seq![
            ButtonView {
                id: "refresh"@,
                label: "\u{21bb} Refresh"@,
                enabled,
                highlight: false,
            },
        ],
    }
}

pub fn refresh_buttons(enabled: bool) -> (item: ControlItem)
    ensures
        item.deep_view() == refresh_row(enabled),
{
    let mut buttons: Vec<ControlButton> = Vec::new();
    buttons.push(
        ControlButton {
            id: "refresh",
            label: "\u{21bb} Refresh".to_owned(),
            enabled,
            highlight: false,
        },
    );
    assert(buttons.deep_view() =~= seq![buttons@[0].deep_view()]);
    ControlItem::ButtonRow { buttons }
}

/// How long ago a fetch was, in seconds up to a minute and in minutes past it.
pub open spec fn age_line(secs: u64) -> Seq<char> {
    if secs < 60 {
        "Updated "@ + decimal(secs as nat) + "s ago"@
    } else {
        "Updated "@ + decimal((secs / 60) as nat) + "m ago"@
    }
}

pub fn age_text(secs: u64) -> (text: String)
    ensures
        text@ == age_line(secs),
{
    let mut text = "Updated ".to_owned();
    if secs < 60 {
        text.append(decimal_text(secs).as_str());
        text.append("s ago");
    } else {
        text.append(decimal_text(secs / 60).as_str());
        text.append("m ago");
    }
    text
}

/// The lines under the refresh row: that a fetch is under way, and how long ago
/// the last one was.
pub open spec fn fetch_lines(fetching: bool, age: Option<u64>) -> Seq<ItemView> {
    (if fetching {
        seq![ItemView::InfoText { text: "Fetching..."@ }]
    } else {
        Seq::empty()
    }) + match age {
        Some(secs) => seq![ItemView::InfoText { text: age_line(secs) }],
        None => Seq::empty(),
    }
}

/// Appends one row.
pub fn push_item(items: &mut Vec<ControlItem>, item: ControlItem)
    ensures
        final(items).deep_view() == old(items).deep_view().push(item.deep_view()),
{
    items.push(item);
    assert(items.deep_view() =~= old(items).deep_view().push(item.deep_view()));
}

/// Appends one line of text.
pub fn push_info(items: &mut Vec<ControlItem>, text: String)
    ensures
        final(items).deep_view() == old(items).deep_view().push(
            (ItemView::InfoText { text: text@ }),
        ),
{
    push_item(items, ControlItem::InfoText { text })
}

/// Appends the refresh row and the lines under it.
pub fn push_fetch_lines(items: &mut Vec<ControlItem>, fetching: bool, age: Option<u64>)
    ensures
        final(items).deep_view() == old(items).deep_view() + fetch_lines(fetching, age),
{
    if fetching {
        push_info(items, "Fetching...".to_owned());
    }
    if let Some(secs) = age {
        push_info(items, age_text(secs));
    }
    assert(items.deep_view() =~= old(items).deep_view() + fetch_lines(fetching, age));
}

/// A line of text as a row.
pub open spec fn line(text: Seq<char>) -> ItemView {
    ItemView::InfoText { text }
}

/// What is said of the last fetch, where it failed.
pub open spec fn error_lines(error: Option<Seq<char>>) -> Seq<ItemView> {
    match error {
        Some(message) => seq![line("! "@ + message)],
        None => Seq::empty(),
    }
}

/// Appends what is said of the last fetch.
pub fn push_error(items: &mut Vec<ControlItem>, error: &Option<String>)
    ensures
        final(items).deep_view() == old(items).deep_view() + error_lines(error.deep_view()),
{
    if let Some(message) = error {
        let mut text = "! ".to_owned();
        text.append(message.as_str());
        push_info(items, text);
    }
    assert(items.deep_view() =~= old(items).deep_view() + error_lines(error.deep_view()));
}

/// Minutes are shown whole, so what is past a minute changes nothing until the
/// next; the lines say that a fetch is under way exactly while it is, and how long
/// ago the last was wherever there was one.
pub proof fn law_an_age_is_shown_in_whole_minutes(minutes: u64, secs: u64, fetching: bool)
    requires
        0 < minutes,
        secs < 60,
        minutes * 60 + secs <= u64::MAX,
    ensures
        age_line((minutes * 60 + secs) as u64) == age_line((minutes * 60) as u64),
        age_line((minutes * 60) as u64) == "Updated "@ + decimal(minutes as nat) + "m ago"@,
        age_line(secs) == "Updated "@ + decimal(secs as nat) + "s ago"@,
        fetch_lines(fetching, None).len() == (if fetching {
            1int
        } else {
            0
        }),
        fetch_lines(fetching, Some(secs)).len() == fetch_lines(fetching, None).len() + 1,
        fetch_lines(fetching, Some(secs)).last() == (ItemView::InfoText { text: age_line(secs) }),
        fetching ==> fetch_lines(fetching, None)[0] == (ItemView::InfoText {
            text: "Fetching..."@,
        }),
{
}

} // verus!
