//! An alternate handle for the same tree core: a folder that is itself the
//! root widget. It shares the directory node type, and with it the
//! enumeration, layout, event and drawing behavior.

use vstd::prelude::*;
use crate::dir::{Dir, DirView, NodeView};
use crate::paths::{file_name_of, has_file_name, file_name};

verus! {

/// A file tree rooted at one folder.
#[derive(Debug)]
pub struct Folder(pub Dir);

impl Folder {
    /// Creates a new [`Folder`] with the root at the given path, or
    /// nothing when the path cannot be enumerated (`readable` is the
    /// host's probe) or has no final component.
    pub fn new(path: String, readable: bool) -> (r: Option<Self>)
        ensures
            r is Some <==> readable && has_file_name(path@),
            r matches Some(f) ==> f.0@ == (DirView {
                path: path@,
                name: file_name_of(path@),
                children: Option::<Seq<NodeView>>::None,
                show_hidden: false,
                show_extensions: true,
                single_click: false,
                double_click: false,
            }),
    {
        if !readable {
            return None;
        }
        let name = file_name(path.as_str());
        if name.as_str().unicode_len() == 0 {
            return None;
        }
        Some(
            Folder(
                Dir {
                    path,
                    name,
                    children: None,
                    show_hidden: false,
                    show_extensions: true,
                    single_click: false,
                    double_click: false,
                },
            ),
        )
    }

    /// Builds a folder node for `path` with the given configuration.
    pub fn new_inner(
        path: String,
        single_click: bool,
        double_click: bool,
        show_hidden: bool,
        show_extensions: bool,
    ) -> (r: Self)
        requires
            has_file_name(path@),
        ensures
            r.0@ == (DirView {
                path: path@,
                name: file_name_of(path@),
                children: Option::<Seq<NodeView>>::None,
                show_hidden,
                show_extensions,
                single_click,
                double_click,
            }),
    {
        Folder(Dir::new_inner(path, single_click, double_click, show_hidden, show_extensions))
    }

    /// Asks for a message on every single click on a file.
    pub fn on_single_click(self) -> (r: Self)
        ensures
            r.0@ == (DirView { single_click: true, ..self.0@ }),
    {
        let Folder(d) = self;
        Folder(Dir { single_click: true, ..d })
    }

    /// Asks for a message on every double click on a file.
    pub fn on_double_click(self) -> (r: Self)
        ensures
            r.0@ == (DirView { double_click: true, ..self.0@ }),
    {
        let Folder(d) = self;
        Folder(Dir { double_click: true, ..d })
    }

    /// Enables or disables showing hidden files (disabled by default).
    pub fn hidden_files(self, show_hidden: bool) -> (r: Self)
        ensures
            r.0@ == (DirView { show_hidden, ..self.0@ }),
    {
        let Folder(d) = self;
        Folder(Dir { show_hidden, ..d })
    }

    /// Enables or disables showing file extensions (enabled by default).
    pub fn file_extensions(self, show_extensions: bool) -> (r: Self)
        ensures
            r.0@ == (DirView { show_extensions, ..self.0@ }),
    {
        let Folder(d) = self;
        Folder(Dir { show_extensions, ..d })
    }
}

} // verus!
