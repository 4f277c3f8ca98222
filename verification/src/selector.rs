//! Folder-selection state for the setup screen, and the loading-window
//! message holder. The screens themselves are drawn by the caller; the
//! library holds the state they read and the rules they follow: both
//! folders must be chosen before a comparison can start.

use vstd::prelude::*;

verus! {

/// The setup screen's state: the two chosen folders, if any, and whether
/// the operator confirmed the selection.
pub struct FolderSelectorApp {
    /// The first root folder, once picked.
    pub folder1: Option<String>,
    /// The second root folder, once picked.
    pub folder2: Option<String>,
    /// Whether the operator confirmed a complete selection.
    pub folders_selected: bool,
}

impl FolderSelectorApp {
    /// A fresh setup screen: nothing picked, nothing confirmed.
    pub fn new() -> (r: Self)
        ensures
            r.folder1 is None,
            r.folder2 is None,
            !r.folders_selected,
    {
        FolderSelectorApp { folder1: None, folder2: None, folders_selected: false }
    }

    /// Records a picked folder: slot 1 for `num == 1`, slot 2 otherwise.
    /// Picking again replaces the earlier choice; confirmation is not
    /// affected.
    pub fn set_folder(&mut self, num: u8, path: String)
        ensures
            final(self).folders_selected == old(self).folders_selected,
            num == 1 ==> final(self).folder1 == Some(path) && final(self).folder2 == old(
                self,
            ).folder2,
            num != 1 ==> final(self).folder2 == Some(path) && final(self).folder1 == old(
                self,
            ).folder1,
    {
        if num == 1 {
            self.folder1 = Some(path);
        } else {
            self.folder2 = Some(path);
        }
    }

    /// Whether both folders have been picked: only then may the
    /// comparison start.
    pub fn both_selected(&self) -> (r: bool)
        ensures
            r == (self.folder1 is Some && self.folder2 is Some),
    {
        let first = match &self.folder1 {
            Some(_) => true,
            None => false,
        };
        let second = match &self.folder2 {
            Some(_) => true,
            None => false,
        };
        first && second
    }

    /// Confirms the selection; without both folders picked nothing
    /// changes.
    pub fn confirm(&mut self)
        ensures
            final(self).folder1 == old(self).folder1,
            final(self).folder2 == old(self).folder2,
            final(self).folders_selected == (old(self).folders_selected || (old(self).folder1
                is Some && old(self).folder2 is Some)),
    {
        if self.both_selected() {
            self.folders_selected = true;
        }
    }

    /// The confirmed selection: both folders, exactly when the operator
    /// confirmed a complete pick.
    pub fn selection(&self) -> (r: Option<(String, String)>)
        ensures
            match r {
                Some(pair) => self.folders_selected && self.folder1 == Some(pair.0)
                    && self.folder2 == Some(pair.1),
                None => !self.folders_selected || self.folder1 is None || self.folder2 is None,
            },
    {
        if !self.folders_selected {
            return None;
        }
        match (&self.folder1, &self.folder2) {
            (Some(f1), Some(f2)) => Some((f1.clone(), f2.clone())),
            _ => None,
        }
    }
}

/// The message a loading window shows while background work runs.
pub struct LoadingWindow {
    /// The message shown beside the spinner.
    pub message: String,
}

impl LoadingWindow {
    /// A loading window with the given message.
    pub fn new(message: String) -> (r: Self)
        ensures
            r.message == message,
    {
        LoadingWindow { message }
    }

    /// The message shown beside the spinner.
    pub fn message(&self) -> (r: &String)
        ensures
            r == self.message,
    {
        &self.message
    }
}

} // verus!
