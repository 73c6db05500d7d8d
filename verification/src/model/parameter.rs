//! The model's fields, and the catalogue that names them.
use vstd::prelude::*;
use crate::text::same_text;

verus! {

/// One field of the model.
#[derive(Clone, Copy, Debug, PartialEq, Eq, Structural, Hash)]
pub struct ModelParameter {
    /// Its place in the catalogue.
    pub place: u8,
    /// The first forecast hour it is published for.
    pub floor: u8,
    /// Whether it is an extreme over a window that ends at its valid time.
    pub windowed: bool,
}

impl ModelParameter {
    /// Every run reaches at least this far, so a floor above it would leave a run
    /// with no hour at all.
    pub open spec fn sound(self) -> bool {
        self.floor <= 18
    }

    pub fn min_forecast_hour(&self) -> (hour: u8)
        ensures
            hour == self.floor,
    {
        self.floor
    }

    pub fn is_windowed(&self) -> (b: bool)
        ensures
            b == self.windowed,
    {
        self.windowed
    }
}

/// A field with its saved spelling and its name on screen.
#[derive(Debug)]
pub struct ParameterRow {
    pub parameter: ModelParameter,
    pub code: String,
    pub name: String,
}

/// The fields the layer offers, and the one a fresh pane shows.
#[derive(Debug)]
pub struct Catalogue {
    pub rows: Vec<ParameterRow>,
    pub usual: ModelParameter,
}

impl Catalogue {
    /// Whether a field is one of the catalogue's.
    pub open spec fn lists(&self, parameter: ModelParameter) -> bool {
        &&& (parameter.place as int) < self.rows@.len()
        &&& self.rows@[parameter.place as int].parameter == parameter
    }

    /// Every field is in its place, no two share a spelling, and the usual one is
    /// among them.
    pub open spec fn wf(&self) -> bool {
        &&& self.rows@.len() <= 256
        &&& forall|i: int|
            0 <= i < self.rows@.len() ==> (#[trigger] self.rows@[i]).parameter.place == i
                && self.rows@[i].parameter.sound()
        &&& forall|i: int, j: int|
            0 <= i < j < self.rows@.len() ==> (#[trigger] self.rows@[i]).code@ != (
            #[trigger] self.rows@[j]).code@
        &&& self.lists(self.usual)
    }

    /// The saved spelling of a field.
    pub open spec fn code_of(&self, parameter: ModelParameter) -> Seq<char> {
        self.rows@[parameter.place as int].code@
    }

    /// The name of a field on screen.
    pub open spec fn name_of(&self, parameter: ModelParameter) -> Seq<char> {
        self.rows@[parameter.place as int].name@
    }

    /// Whether a field has this spelling.
    pub open spec fn spells(&self, text: Seq<char>, at: int) -> bool {
        0 <= at < self.rows@.len() && self.rows@[at].code@ == text
    }

    /// The field a spelling names.
    pub open spec fn of_code(&self, text: Seq<char>) -> Option<ModelParameter> {
        if exists|at: int| self.spells(text, at) {
            Some(self.rows@[choose|at: int| self.spells(text, at)].parameter)
        } else {
            None
        }
    }

    pub fn code(&self, parameter: ModelParameter) -> (text: &str)
        requires
            self.wf(),
            self.lists(parameter),
        ensures
            text@ == self.code_of(parameter),
    {
        self.rows[parameter.place as usize].code.as_str()
    }

    pub fn name(&self, parameter: ModelParameter) -> (text: &str)
        requires
            self.wf(),
            self.lists(parameter),
        ensures
            text@ == self.name_of(parameter),
    {
        self.rows[parameter.place as usize].name.as_str()
    }

    pub fn parse(&self, text: &str) -> (parameter: Option<ModelParameter>)
        requires
            self.wf(),
        ensures
            parameter == self.of_code(text@),
            parameter matches Some(p) ==> self.lists(p) && p.sound(),
    {
        let mut at: usize = 0;
        while at < self.rows.len()
            invariant
                self.wf(),
                at <= self.rows@.len(),
                forall|i: int| 0 <= i < at ==> !self.spells(text@, i),
            decreases self.rows@.len() - at,
        {
            if same_text(self.rows[at].code.as_str(), text) {
                proof {
                    assert(self.spells(text@, at as int));
                    let chosen = choose|i: int| self.spells(text@, i);
                    assert(self.rows@[chosen].code@ == self.rows@[at as int].code@);
                }
                return Some(self.rows[at].parameter);
            }
            at = at + 1;
        }
        None
    }

    /// A field's saved spelling names it again.
    pub proof fn law_code_reads_back(&self, parameter: ModelParameter)
        requires
            self.wf(),
            self.lists(parameter),
        ensures
            self.of_code(self.code_of(parameter)) == Some(parameter),
    {
        let text = self.code_of(parameter);
        assert(self.spells(text, parameter.place as int));
        let chosen = choose|i: int| self.spells(text, i);
        assert(self.rows@[chosen].code@ == self.rows@[parameter.place as int].code@);
    }

    /// The catalogue as the options of a dropdown.
    pub open spec fn options_view(&self) -> Seq<(Seq<char>, Seq<char>)> {
        Seq::new(self.rows@.len(), |i: int| (self.rows@[i].code@, self.rows@[i].name@))
    }

    pub fn options(&self) -> (options: Vec<(String, String)>)
        ensures
            options.deep_view() == self.options_view(),
    {
        let mut options: Vec<(String, String)> = Vec::new();
        let mut at: usize = 0;
        while at < self.rows.len()
            invariant
                at <= self.rows@.len(),
                options.deep_view() == self.options_view().take(at as int),
            decreases self.rows@.len() - at,
        {
            let ghost shorter = options.deep_view();
            options.push((self.rows[at].code.clone(), self.rows[at].name.clone()));
            assert(options.deep_view() =~= shorter.push(self.options_view()[at as int]));
            at = at + 1;
            assert(options.deep_view() =~= self.options_view().take(at as int));
        }
        assert(self.options_view().take(at as int) =~= self.options_view());
        options
    }
}

/// A text names a field exactly where it is the spelling of one in the catalogue,
/// and there is an option for every field, in their order.
pub proof fn law_a_code_names_its_own_field(
    catalogue: &Catalogue,
    text: Seq<char>,
    parameter: ModelParameter,
)
    requires
        catalogue.wf(),
    ensures
        catalogue.of_code(text) == Some(parameter) <==> catalogue.lists(parameter)
            && catalogue.rows@[parameter.place as int].code@ == text,
        catalogue.options_view().len() == catalogue.rows@.len(),
        forall|i: int|
            0 <= i < catalogue.rows@.len() ==> catalogue.of_code(
                (#[trigger] catalogue.options_view()[i]).0,
            ) == Some(catalogue.rows@[i].parameter) && catalogue.options_view()[i].1
                == catalogue.rows@[i].name@,
{
    if catalogue.lists(parameter) && catalogue.rows@[parameter.place as int].code@ == text {
        catalogue.law_code_reads_back(parameter);
    }
    if catalogue.of_code(text) == Some(parameter) {
        let at = choose|at: int| catalogue.spells(text, at);
        assert(catalogue.rows@[at].parameter.place == at);
    }
    assert forall|i: int| 0 <= i < catalogue.rows@.len() implies catalogue.of_code(
        (#[trigger] catalogue.options_view()[i]).0,
    ) == Some(catalogue.rows@[i].parameter) by {
        assert(catalogue.rows@[i].parameter.place == i);
        catalogue.law_code_reads_back(catalogue.rows@[i].parameter);
    }
}

} // verus!
