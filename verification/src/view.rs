//! Decisions of the graphical view that do not depend on drawing: panel
//! labels, which optional parts are shown, the commands a frame's toolbar
//! and pointer interaction produce, and the structure tree's expand /
//! collapse state.

use vstd::prelude::*;
use crate::state::{AppState, AppView, Command, DataFormat};

verus! {

/// Heading of the data editor for a data format.
pub open spec fn data_format_text(format: DataFormat) -> Seq<char> {
    match format {
        DataFormat::Json => "Data (JSON)"@,
        DataFormat::Binary => "Data (Hex bytes)"@,
    }
}

/// Heading of the data editor for a data format.
pub fn data_format_label(format: DataFormat) -> (r: &'static str)
    ensures
        r@ == data_format_text(format),
{
    match format {
        DataFormat::Json => "Data (JSON)",
        DataFormat::Binary => "Data (Hex bytes)",
    }
}

/// Label of the data format picker's entry for a format.
pub open spec fn format_choice_text(format: DataFormat) -> Seq<char> {
    match format {
        DataFormat::Json => "JSON"@,
        DataFormat::Binary => "Hex"@,
    }
}

/// Label of the data format picker's entry for a format.
pub fn format_choice_label(format: DataFormat) -> (r: &'static str)
    ensures
        r@ == format_choice_text(format),
{
    match format {
        DataFormat::Json => "JSON",
        DataFormat::Binary => "Hex",
    }
}

/// What the toolbar's widgets reported in one frame: the template picked,
/// which buttons were clicked, and the data format picked.
pub struct ToolbarInput {
    pub selected_template: usize,
    pub compile_clicked: bool,
    pub random_clicked: bool,
    pub share_clicked: bool,
    pub data_format: DataFormat,
}

/// Commands of the toolbar in the order its widgets stand: a newly picked
/// template, Compile & Encode, Random (with the state's next seed), Share,
/// and a newly picked data format.
pub open spec fn toolbar_seq(s: AppView, i: ToolbarInput) -> Seq<Command> {
    (if i.selected_template != s.selected_template_idx { seq![Command::SelectTemplate(i.selected_template)] } else { seq![] })
        + (if i.compile_clicked { seq![Command::CompileAndEncode] } else { seq![] })
        + (if i.random_clicked { seq![Command::GenerateRandom { seed: s.random_seed_counter }] } else { seq![] })
        + (if i.share_clicked { seq![Command::CopyShareLink] } else { seq![] })
        + (if i.data_format != s.data_format { seq![Command::SwitchDataFormat(i.data_format)] } else { seq![] })
}

/// Which optional parts of the view a state shows.
pub struct ViewParts {
    /// Label of the button that shows or hides the compiled schema as JSON.
    pub schema_json_button: Option<&'static str>,
    /// Label of the button that shows or hides the decoded data.
    pub decoded_json_button: Option<&'static str>,
    pub schema_json_panel: bool,
    pub decoded_json_panel: bool,
    /// The structure tree's Expand All and Collapse All buttons.
    pub tree_buttons: bool,
    pub unlock_button: bool,
    /// Text shown in place of the structure tree.
    pub tree_placeholder: Option<&'static str>,
    /// Text shown in place of the hex view.
    pub hex_placeholder: Option<&'static str>,
}

/// A label chosen by a flag.
pub open spec fn label_is(l: Option<&'static str>, shown: bool, text: Seq<char>) -> bool {
    if shown {
        l matches Some(t) && t@ == text
    } else {
        l is None
    }
}

/// The optional parts that a state shows.
pub open spec fn parts_of(s: AppView, p: ViewParts) -> bool {
    &&& label_is(p.schema_json_button, s.compiled_schema is Some, if s.show_schema_json { "Hide JSON"@ } else { "View JSON"@ })
    &&& label_is(p.decoded_json_button, s.annotations is Some && s.decoded_json.len() > 0,
        if s.show_decoded_json { "Hide Decoded"@ } else { "View Decoded"@ })
    &&& p.schema_json_panel == (s.show_schema_json && s.schema_json_output.len() > 0)
    &&& p.decoded_json_panel == (s.show_decoded_json && s.decoded_json.len() > 0)
    &&& p.tree_buttons == s.annotations is Some
    &&& p.unlock_button == s.locked_region is Some
    &&& label_is(p.tree_placeholder, s.annotations is None, "No data loaded. Click 'Compile & Encode' to start."@)
    &&& label_is(p.hex_placeholder, s.binary_data is None || s.annotations is None,
        if s.binary_data is None { "No binary data."@ } else { "Binary data loaded but no annotations."@ })
}

impl AppState {
    /// Commands for what the toolbar's widgets reported in one frame.
    pub fn toolbar_commands(&self, input: ToolbarInput) -> (commands: Vec<Command>)
        ensures
            commands@ == toolbar_seq(self@, input),
    {
        let mut commands: Vec<Command> = Vec::new();
        if input.selected_template != self.selected_template_idx {
            commands.push(Command::SelectTemplate(input.selected_template));
        }
        if input.compile_clicked {
            commands.push(Command::CompileAndEncode);
        }
        if input.random_clicked {
            commands.push(Command::GenerateRandom { seed: self.random_seed_counter });
        }
        if input.share_clicked {
            commands.push(Command::CopyShareLink);
        }
        if input.data_format != self.data_format {
            commands.push(Command::SwitchDataFormat(input.data_format));
        }
        assert(commands@ =~= toolbar_seq(self@, input));
        commands
    }

    /// The optional parts of the view that this state shows.
    pub fn view_parts(&self) -> (p: ViewParts)
        ensures
            parts_of(self@, p),
    {
        let has_annotations = self.annotations.is_some();
        ViewParts {
            schema_json_button: if self.compiled_schema.is_none() {
                None
            } else if self.show_schema_json {
                Some("Hide JSON")
            } else {
                Some("View JSON")
            },
            decoded_json_button: if !has_annotations || self.decoded_json.as_str().is_empty() {
                None
            } else if self.show_decoded_json {
                Some("Hide Decoded")
            } else {
                Some("View Decoded")
            },
            schema_json_panel: self.show_schema_json && !self.schema_json_output.as_str().is_empty(),
            decoded_json_panel: self.show_decoded_json && !self.decoded_json.as_str().is_empty(),
            tree_buttons: has_annotations,
            unlock_button: self.locked_region.is_some(),
            tree_placeholder: if has_annotations { None } else { Some("No data loaded. Click 'Compile & Encode' to start.") },
            hex_placeholder: if self.binary_data.is_none() {
                Some("No binary data.")
            } else if !has_annotations {
                Some("Binary data loaded but no annotations.")
            } else {
                None
            },
        }
    }
}

/// Commands for a frame's pointer interaction: a click on a region clicks
/// it, and a change of the hovered region (to a region or to none) is
/// reported after it.
pub fn emit_interaction_commands(hovered_region: Option<usize>, hover: Option<usize>, click: Option<usize>) -> (commands: Vec<Command>)
    ensures
        commands@.len() == (if click is Some { 1int } else { 0int }) + (if hover != hovered_region { 1int } else { 0int }),
        click is Some ==> commands@[0] == Command::ClickRegion(click->0),
        hover != hovered_region ==> commands@.last() == Command::HoverRegion(hover),
{
    let mut commands: Vec<Command> = Vec::new();
    if let Some(clicked) = click {
        commands.push(Command::ClickRegion(clicked));
    }
    let changed = match (hover, hovered_region) {
        (Some(a), Some(b)) => a != b,
        (None, None) => false,
        _ => true,
    };
    if changed {
        commands.push(Command::HoverRegion(hover));
    }
    commands
}

impl AppState {
    /// Opens (`true`) or closes (`false`) every node of the structure tree,
    /// starting a new tree generation so that nodes forget their own state.
    pub fn set_structure_all_open(&mut self, open: bool)
        requires
            old(self).structure_tree_gen < u64::MAX,
        ensures
            final(self)@ == (AppView {
                structure_tree_gen: (old(self)@.structure_tree_gen + 1) as u64,
                structure_all_open: Some(open),
                ..old(self)@
            }),
    {
        self.structure_tree_gen = self.structure_tree_gen + 1;
        self.structure_all_open = Some(open);
    }
}

} // verus!
