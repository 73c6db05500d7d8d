//! The dialog an item opens.
use vstd::prelude::*;
use crate::instant::{calendar_text, format_calendar, on_calendar, Instant};

verus! {

/// One part of a dialog.
#[derive(Debug)]
pub enum PopupSection {
    Heading(String),
    Text(String),
    KeyValueGrid(Vec<(String, String)>),
    Separator,
    Link { label: String, url: String },
}

/// [`PopupSection`] over mathematical values.
pub enum SectionView {
    Heading(Seq<char>),
    Text(Seq<char>),
    KeyValueGrid(Seq<(Seq<char>, Seq<char>)>),
    Separator,
    Link { label: Seq<char>, url: Seq<char> },
}

impl DeepView for PopupSection {
    type V = SectionView;

    open spec fn deep_view(&self) -> SectionView {
        match *self {
            PopupSection::Heading(text) => SectionView::Heading(text@),
            PopupSection::Text(text) => SectionView::Text(text@),
            PopupSection::KeyValueGrid(rows) => SectionView::KeyValueGrid(rows.deep_view()),
            PopupSection::Separator => SectionView::Separator,
            PopupSection::Link { label, url } => SectionView::Link { label: label@, url: url@ },
        }
    }
}

/// A dialog.
#[derive(Debug)]
pub struct PopupContent {
    pub title: String,
    pub accent_rgb: [u8; 3],
    /// In points.
    pub width: u32,
    pub sections: Vec<PopupSection>,
}

/// [`PopupContent`] over mathematical values.
#[verifier::ext_equal]
pub struct PopupView {
    pub title: Seq<char>,
    pub accent_rgb: Seq<u8>,
    pub width: u32,
    pub sections: Seq<SectionView>,
}

impl DeepView for PopupContent {
    type V = PopupView;

    open spec fn deep_view(&self) -> PopupView {
        PopupView {
            title: self.title@,
            accent_rgb: self.accent_rgb@,
            width: self.width,
            sections: self.sections.deep_view(),
        }
    }
}

/// Which clock times are shown on.
#[derive(Clone, Copy, Debug, PartialEq, Eq, Structural)]
pub enum TimezonePreference {
    Utc,
    Local,
}

/// What an optional instant reads as: "Unknown" where there is none, so that a
/// gap in a feed shows as one. `local` is what the machine's own clock reads.
pub open spec fn time_view(
    t: Option<Instant>,
    timezone: TimezonePreference,
    local: Seq<char>,
) -> Seq<char> {
    match t {
        None => "Unknown"@,
        Some(at) => match timezone {
            TimezonePreference::Local => local,
            TimezonePreference::Utc => if on_calendar(at.secs, 0) {
                calendar_text(at.secs, "%b %d %Y %H:%M"@) + " UTC"@
            } else {
                "Unknown"@
            },
        },
    }
}

pub fn time_text(t: Option<Instant>, timezone: TimezonePreference, local: &str) -> (text: String)
    ensures
        text@ == time_view(t, timezone, local@),
{
    match t {
        None => "Unknown".to_owned(),
        Some(at) => match timezone {
            TimezonePreference::Local => local.to_owned(),
            TimezonePreference::Utc => match format_calendar(at.secs, "%b %d %Y %H:%M") {
                Some(mut text) => {
                    text.append(" UTC");
                    text
                },
                None => "Unknown".to_owned(),
            },
        },
    }
}

/// Appends one part.
pub fn push_section(sections: &mut Vec<PopupSection>, section: PopupSection)
    ensures
        final(sections).deep_view() == old(sections).deep_view().push(section.deep_view()),
{
    sections.push(section);
    assert(sections.deep_view() =~= old(sections).deep_view().push(section.deep_view()));
}

/// Appends one row of a grid.
pub fn push_row(rows: &mut Vec<(String, String)>, key: &str, value: String)
    ensures
        final(rows).deep_view() == old(rows).deep_view().push((key@, value@)),
{
    rows.push((key.to_owned(), value));
    assert(rows.deep_view() =~= old(rows).deep_view().push((key@, value@)));
}

} // verus!
