//! The settings panel's structure.
//!
//! A scene's descriptor lists its panel as separators, text lines, and
//! references to settings by key; consecutive setting references group into
//! one rendered grid. This module computes that grouping and snapshots the
//! values a cancelled panel restores; the widget toolkit that draws the
//! panel lives outside the library.

use crate::descriptor::{Descriptor, Ui};
use crate::setting::SettingValue;
use crate::settings::Settings;
use vstd::prelude::*;

verus! {

/// How a settings panel interaction ended.
#[derive(PartialEq, Eq, Structural, Clone, Copy, Debug)]
pub enum SceneUiResult {
    Open,
    Closed,
    Saved,
}

/// One rendered element of the panel: a separator, a text line, or a grid
/// of consecutive setting references.
#[derive(Debug)]
pub enum SceneUiElement {
    Separator,
    Text(String),
    SettingGroup(Vec<String>),
}

/// The abstract shape of one panel element.
pub enum UiGroupView {
    Separator,
    Text(Seq<char>),
    Group(Seq<Seq<char>>),
}

impl View for SceneUiElement {
    type V = UiGroupView;

    open spec fn view(&self) -> UiGroupView {
        match self {
            SceneUiElement::Separator => UiGroupView::Separator,
            SceneUiElement::Text(t) => UiGroupView::Text(t@),
            SceneUiElement::SettingGroup(v) => UiGroupView::Group(
                Seq::new(v@.len(), |i: int| v@[i]@),
            ),
        }
    }
}

/// The grouping a panel declaration renders as: separators and text lines
/// stand alone, and each run of consecutive setting references becomes one
/// group.
pub open spec fn spec_ui_groups(ui: Seq<Ui>) -> Seq<UiGroupView>
    decreases ui.len(),
{
    if ui.len() == 0 {
        Seq::<UiGroupView>::empty()
    } else {
        let rest = spec_ui_groups(ui.drop_last());
        match ui.last() {
            Ui::Separator => rest.push(UiGroupView::Separator),
            Ui::Text { text } => rest.push(UiGroupView::Text(text@)),
            Ui::Setting { setting } => {
                if rest.len() > 0 && (rest.last() matches UiGroupView::Group(_)) {
                    let g = rest.last()->Group_0;
                    rest.update(rest.len() - 1, UiGroupView::Group(g.push(setting@)))
                } else {
                    rest.push(UiGroupView::Group(seq![setting@]))
                }
            },
        }
    }
}

/// The panel structure of one scene, plus the values to restore on cancel.
pub struct SceneUi {
    pub elements: Vec<SceneUiElement>,
    pub original_values: Vec<(String, SettingValue)>,
}

impl SceneUi {
    /// The abstract shape of the computed elements.
    pub open spec fn elements_view(&self) -> Seq<UiGroupView> {
        Seq::new(self.elements@.len(), |i: int| self.elements@[i]@)
    }

    /// Groups the descriptor's panel declaration and snapshots the current
    /// setting values.
    pub fn new(descriptor: &Descriptor, settings: &Settings) -> (r: SceneUi)
        ensures
            r.elements_view() == spec_ui_groups(descriptor.ui@),
            r.original_values@ == settings.pairs(),
    {
        let ui = &descriptor.ui;
        let n = ui.len();
        let mut elements: Vec<SceneUiElement> = Vec::new();
        let mut i: usize = 0;
        proof {
            assert(Seq::new(elements@.len(), |j: int| elements@[j]@) =~= spec_ui_groups(
                ui@.take(0),
            ));
        }
        while i < n
            invariant
                n == ui@.len(),
                i <= n,
                Seq::new(elements@.len(), |j: int| elements@[j]@) =~= spec_ui_groups(
                    ui@.take(i as int),
                ),
            decreases n - i,
        {
            let ghost pre = elements@;
            match &ui[i] {
                Ui::Separator => {
                    elements.push(SceneUiElement::Separator);
                },
                Ui::Text { text } => {
                    elements.push(SceneUiElement::Text(text.clone()));
                },
                Ui::Setting { setting } => {
                    let le = elements.len();
                    let mut grows_last = false;
                    if le > 0 {
                        match &elements[le - 1] {
                            SceneUiElement::SettingGroup(_) => {
                                grows_last = true;
                            },
                            _ => {},
                        }
                    }
                    if grows_last {
                        match elements.pop() {
                            Some(SceneUiElement::SettingGroup(mut v)) => {
                                let ghost old_v = v@;
                                v.push(setting.clone());
                                proof {
                                    let g = pre[pre.len() - 1]@->Group_0;
                                    assert(Seq::new(v@.len(), |ix: int| v@[ix]@) =~= g.push(
                                        setting@,
                                    ));
                                }
                                elements.push(SceneUiElement::SettingGroup(v));
                                proof {
                                    assert(elements@ =~= pre.update(
                                        pre.len() - 1,
                                        elements@[pre.len() - 1],
                                    ));
                                }
                            },
                            _ => {
                                proof {
                                    assert(false);
                                }
                            },
                        }
                    } else {
                        let mut group: Vec<String> = Vec::new();
                        group.push(setting.clone());
                        proof {
                            assert(Seq::new(group@.len(), |ix: int| group@[ix]@) =~= seq![
                                setting@,
                            ]);
                        }
                        elements.push(SceneUiElement::SettingGroup(group));
                    }
                },
            }
            proof {
                assert(ui@.take(i + 1).drop_last() =~= ui@.take(i as int));
                assert(ui@.take(i + 1).last() == ui@[i as int]);
                assert(Seq::new(elements@.len(), |j: int| elements@[j]@) =~= spec_ui_groups(
                    ui@.take(i + 1),
                ));
            }
            i = i + 1;
        }
        proof {
            assert(ui@.take(n as int) =~= ui@);
        }
        let original_values = settings.save();
        SceneUi { elements, original_values }
    }
}

/// Whether a typed character belongs in a text field: control characters
/// and the private use areas are filtered out, as toolkits deliver special
/// keys through them.
pub open spec fn spec_is_printable(chr: char) -> bool {
    let in_private_use = ('\u{e000}' <= chr && chr <= '\u{f8ff}') || ('\u{f0000}' <= chr && chr
        <= '\u{ffffd}') || ('\u{100000}' <= chr && chr <= '\u{10fffd}');
    let is_control = chr <= '\u{1f}' || chr == '\u{7f}';
    !in_private_use && !is_control
}

/// Whether a typed character belongs in a text field.
pub fn is_printable_char(chr: char) -> (r: bool)
    ensures
        r == spec_is_printable(chr),
{
    let is_in_private_use_area = ('\u{e000}' <= chr && chr <= '\u{f8ff}') || ('\u{f0000}' <= chr
        && chr <= '\u{ffffd}') || ('\u{100000}' <= chr && chr <= '\u{10fffd}');
    let is_control = chr <= '\u{1f}' || chr == '\u{7f}';
    !is_in_private_use_area && !is_control
}

} // verus!
