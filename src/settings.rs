//! State of the settings overlay: which entry is selected and the value each
//! entry shows. Drawing it is left to the view layer.
use vstd::prelude::*;
use crate::config::Language;

verus! {

/// One entry of the settings overlay.
#[derive(Clone, Copy, Debug, PartialEq, Eq, Structural)]
pub enum SettingsItem {
    Language { current: Language },
    Theme { current_index: usize, total_themes: usize },
    Mosaic { enabled: bool },
    Close,
}

/// What choosing the selected entry changed.
#[derive(Clone, Copy, Debug, PartialEq, Eq, Structural)]
pub enum SettingsChange {
    Language(Language),
    Theme(usize),
    Mosaic(bool),
    Closed,
}

/// The settings overlay: always the four entries language, theme, mosaic and
/// close, in that order.
#[derive(Clone, Debug)]
pub struct SettingsMenu {
    pub is_open: bool,
    pub selected_index: usize,
    pub items: Vec<SettingsItem>,
}

impl SettingsMenu {
    pub open spec fn items(&self) -> Seq<SettingsItem> {
        self.items@
    }

    pub open spec fn wf(&self) -> bool {
        &&& self.items().len() == 4
        &&& self.items()[0] is Language
        &&& self.items()[1] is Theme
        &&& self.items()[2] is Mosaic
        &&& self.items()[3] is Close
        &&& self.selected_index < 4
    }

    /// A closed overlay showing the given values, with the first entry selected.
    pub fn new(language: Language, theme_index: usize, total_themes: usize, mosaic: bool) -> (r:
        SettingsMenu)
        ensures
            r.wf(),
            !r.is_open,
            r.selected_index == 0,
            r.items() == seq![
                SettingsItem::Language { current: language },
                SettingsItem::Theme { current_index: theme_index, total_themes },
                SettingsItem::Mosaic { enabled: mosaic },
                SettingsItem::Close,
            ],
    {
        let items = vec![
            SettingsItem::Language { current: language },
            SettingsItem::Theme { current_index: theme_index, total_themes },
            SettingsItem::Mosaic { enabled: mosaic },
            SettingsItem::Close,
        ];
        let r = SettingsMenu { is_open: false, selected_index: 0, items };
        assert(r.items() =~= seq![
            SettingsItem::Language { current: language },
            SettingsItem::Theme { current_index: theme_index, total_themes },
            SettingsItem::Mosaic { enabled: mosaic },
            SettingsItem::Close,
        ]);
        r
    }

    /// Opens a closed overlay (selecting the first entry) or closes an open one.
    pub fn toggle(&mut self)
        requires
            old(self).wf(),
        ensures
            final(self).wf(),
            final(self).is_open == !old(self).is_open,
            final(self).selected_index == if final(self).is_open {
                0
            } else {
                old(self).selected_index
            },
            final(self).items() == old(self).items(),
    {
        self.is_open = !self.is_open;
        if self.is_open {
            self.selected_index = 0;
        }
    }

    /// Opens the overlay with the first entry selected.
    pub fn open(&mut self)
        requires
            old(self).wf(),
        ensures
            final(self).wf(),
            final(self).is_open,
            final(self).selected_index == 0,
            final(self).items() == old(self).items(),
    {
        self.is_open = true;
        self.selected_index = 0;
    }

    /// Closes the overlay, keeping the selection.
    pub fn close(&mut self)
        requires
            old(self).wf(),
        ensures
            final(self).wf(),
            !final(self).is_open,
            final(self).selected_index == old(self).selected_index,
            final(self).items() == old(self).items(),
    {
        self.is_open = false;
    }

    /// Selects the previous entry, stopping at the first.
    pub fn navigate_up(&mut self)
        requires
            old(self).wf(),
        ensures
            final(self).wf(),
            final(self).selected_index == if old(self).selected_index > 0 {
                old(self).selected_index - 1
            } else {
                0
            },
            final(self).is_open == old(self).is_open,
            final(self).items() == old(self).items(),
    {
        if self.selected_index > 0 {
            self.selected_index = self.selected_index - 1;
        }
    }

    /// Selects the next entry, stopping at the last.
    pub fn navigate_down(&mut self)
        requires
            old(self).wf(),
        ensures
            final(self).wf(),
            final(self).selected_index == if old(self).selected_index < 3 {
                old(self).selected_index + 1
            } else {
                3
            },
            final(self).is_open == old(self).is_open,
            final(self).items() == old(self).items(),
    {
        if self.selected_index < self.items.len() - 1 {
            self.selected_index = self.selected_index + 1;
        }
    }

    /// Shows `language` in the language entry.
    pub fn update_language(&mut self, language: Language)
        requires
            old(self).wf(),
        ensures
            final(self).wf(),
            final(self).items() == old(self).items().update(
                0,
                SettingsItem::Language { current: language },
            ),
            final(self).is_open == old(self).is_open,
            final(self).selected_index == old(self).selected_index,
    {
        self.items.set(0, SettingsItem::Language { current: language });
    }

    /// Shows theme `theme_index` in the theme entry, keeping its theme count.
    pub fn update_theme(&mut self, theme_index: usize)
        requires
            old(self).wf(),
        ensures
            final(self).wf(),
            final(self).items() == old(self).items().update(
                1,
                SettingsItem::Theme {
                    current_index: theme_index,
                    total_themes: old(self).items()[1]->Theme_total_themes,
                },
            ),
            final(self).is_open == old(self).is_open,
            final(self).selected_index == old(self).selected_index,
    {
        let total = match self.items[1] {
            SettingsItem::Theme { total_themes, .. } => total_themes,
            _ => 0,
        };
        self.items.set(1, SettingsItem::Theme { current_index: theme_index, total_themes: total });
    }

    /// Shows `enabled` in the mosaic entry.
    pub fn update_mosaic(&mut self, enabled: bool)
        requires
            old(self).wf(),
        ensures
            final(self).wf(),
            final(self).items() == old(self).items().update(
                2,
                SettingsItem::Mosaic { enabled },
            ),
            final(self).is_open == old(self).is_open,
            final(self).selected_index == old(self).selected_index,
    {
        self.items.set(2, SettingsItem::Mosaic { enabled });
    }

    /// Acts on the selected entry: the language entry switches language, the
    /// theme entry moves to the next theme (wrapping around), the mosaic entry
    /// flips, and the close entry closes the overlay. The entry shows the new
    /// value, which is also returned for the caller to apply and save.
    pub fn apply_selection(&mut self) -> (r: SettingsChange)
        requires
            old(self).wf(),
            old(self).items()[1]->Theme_total_themes > 0,
        ensures
            final(self).wf(),
            final(self).selected_index == old(self).selected_index,
            final(self).items()[1]->Theme_total_themes == old(self).items()[1]->Theme_total_themes,
            match old(self).items()[old(self).selected_index as int] {
                SettingsItem::Language { current } => {
                    let l = match current {
                        Language::English => Language::Japanese,
                        Language::Japanese => Language::English,
                    };
                    &&& r == SettingsChange::Language(l)
                    &&& final(self).items() == old(self).items().update(
                        0,
                        SettingsItem::Language { current: l },
                    )
                    &&& final(self).is_open == old(self).is_open
                },
                SettingsItem::Theme { current_index, total_themes } => {
                    let t = (current_index as int + 1) % (total_themes as int);
                    &&& r == SettingsChange::Theme(t as usize)
                    &&& final(self).items() == old(self).items().update(
                        1,
                        SettingsItem::Theme { current_index: t as usize, total_themes },
                    )
                    &&& final(self).is_open == old(self).is_open
                },
                SettingsItem::Mosaic { enabled } => {
                    &&& r == SettingsChange::Mosaic(!enabled)
                    &&& final(self).items() == old(self).items().update(
                        2,
                        SettingsItem::Mosaic { enabled: !enabled },
                    )
                    &&& final(self).is_open == old(self).is_open
                },
                SettingsItem::Close => {
                    &&& r == SettingsChange::Closed
                    &&& final(self).items() == old(self).items()
                    &&& !final(self).is_open
                },
            },
    {
        let item = self.items[self.selected_index];
        match item {
            SettingsItem::Language { current } => {
                let l = current.toggle();
                self.update_language(l);
                SettingsChange::Language(l)
            },
            SettingsItem::Theme { current_index, total_themes } => {
                let t = (current_index % total_themes + 1) % total_themes;
                proof {
                    vstd::arithmetic::div_mod::lemma_add_mod_noop_right(
                        1,
                        current_index as int,
                        total_themes as int,
                    );
                }
                self.update_theme(t);
                SettingsChange::Theme(t)
            },
            SettingsItem::Mosaic { enabled } => {
                self.update_mosaic(!enabled);
                SettingsChange::Mosaic(!enabled)
            },
            SettingsItem::Close => {
                self.close();
                SettingsChange::Closed
            },
        }
    }

    /// Selects the entry on screen row `row` of an overlay whose top border is
    /// on row `top` (a title row separates them from the entries). Returns
    /// the entry's index, or `None` when the row holds no entry.
    pub fn click_at(&mut self, row: u16, top: u16) -> (r: Option<usize>)
        requires
            old(self).wf(),
        ensures
            final(self).wf(),
            final(self).items() == old(self).items(),
            final(self).is_open == old(self).is_open,
            (top + 2 <= row < top + 6) ==> r == Some((row - top - 2) as usize)
                && final(self).selected_index == row - top - 2,
            !(top + 2 <= row < top + 6) ==> r is None && final(self).selected_index
                == old(self).selected_index,
    {
        let start = top as u32 + 2;
        let row = row as u32;
        if row >= start && row < start + self.items.len() as u32 {
            let index = (row - start) as usize;
            self.selected_index = index;
            return Some(index);
        }
        None
    }

    /// The selected entry.
    pub fn get_selected_item(&self) -> (r: Option<&SettingsItem>)
        requires
            self.wf(),
        ensures
            r == Some(&self.items()[self.selected_index as int]),
    {
        Some(&self.items[self.selected_index])
    }
}

} // verus!
