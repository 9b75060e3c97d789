//! The display module as the aggregator drives it.

use vstd::prelude::*;
use vstd::string::StringExecFns;

verus! {

/// One thing a display module was told to do.
pub enum ModuleOp {
    /// Show the module's element, or hide it.
    SetVisible(bool),
    /// Replace the text, inside one locked update of the output buffer.
    Write(Seq<char>),
}

/// What a display module shows, and what it was told to get there.
pub struct ModuleView {
    /// Whether the module's element is shown at all.
    pub visible: bool,
    /// The text in the module's output buffer.
    pub output: Seq<char>,
    /// Everything the module was told since it was made, oldest first.
    pub history: Seq<ModuleOp>,
}

/// A display module: a visibility flag and an output buffer that is only
/// written as a whole.
pub struct Module {
    output_visible: bool,
    output: String,
    history: Ghost<Seq<ModuleOp>>,
}

impl View for Module {
    type V = ModuleView;

    closed spec fn view(&self) -> ModuleView {
        ModuleView { visible: self.output_visible, output: self.output@, history: self.history@ }
    }
}

impl Module {
    /// A module with the given initial text and visibility, and no history.
    pub fn new(output: &str, visible: bool) -> (m: Module)
        ensures
            m@ == (ModuleView { visible, output: output@, history: Seq::empty() }),
    {
        Module {
            output_visible: visible,
            output: String::from_str(output),
            history: Ghost(Seq::empty()),
        }
    }

    /// Shows or hides the module; the text stays as it is.
    pub fn visible(&mut self, v: bool)
        ensures
            final(self)@ == (ModuleView {
                visible: v,
                output: old(self)@.output,
                history: old(self)@.history.push(ModuleOp::SetVisible(v)),
            }),
    {
        self.output_visible = v;
        self.history = Ghost(self.history@.push(ModuleOp::SetVisible(v)));
    }

    /// Replaces the text in one step, so that no reader sees a partial
    /// update; the visibility stays as it is.
    pub fn with_output_lock(&mut self, text: &str)
        ensures
            final(self)@ == (ModuleView {
                visible: old(self)@.visible,
                output: text@,
                history: old(self)@.history.push(ModuleOp::Write(text@)),
            }),
    {
        self.output = String::from_str(text);
        self.history = Ghost(self.history@.push(ModuleOp::Write(text@)));
    }

    /// Whether the module is shown.
    pub fn is_visible(&self) -> (v: bool)
        ensures
            v == self@.visible,
    {
        self.output_visible
    }

    /// The text in the output buffer.
    pub fn output(&self) -> (text: &str)
        ensures
            text@ == self@.output,
    {
        self.output.as_str()
    }
}

} // verus!
