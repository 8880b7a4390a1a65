//! The demonstration plugin: compiles and runs C++ sources dropped into its
//! input directory, writing what the program prints to `<stem>.txt`.

use vstd::prelude::*;
use crate::path::{Comp, FsPath, spec_join, spec_file_stem, spec_parent};
use crate::text::push_char;

verus! {

/// The C++ plugin.
#[derive(Debug, Clone, Copy)]
pub struct CppPlugin;

impl CppPlugin {
    /// The extensions that the plugin handles.
    pub fn extensions(&self) -> (r: &'static [&'static str])
        ensures
            r@.len() == 1,
            r@[0]@ == "cpp"@,
    {
        let r: &'static [&'static str] = &["cpp"];
        r
    }

    /// The file that the output of the program compiled from `input` goes to:
    /// `<stem>.txt` in `output_dir`; none where `input` has no file name.
    pub fn output_file(&self, input: &FsPath, output_dir: &FsPath) -> (r: Option<FsPath>)
        ensures
            match r {
                Some(p) => spec_file_stem(input@) matches Some(stem) && p@ == spec_join(
                    output_dir@,
                    stem + seq!['.', 't', 'x', 't'],
                ),
                None => spec_file_stem(input@) is None,
            },
    {
        match input.file_stem() {
            Some(stem) => {
                let mut name = stem;
                push_char(&mut name, '.');
                push_char(&mut name, 't');
                push_char(&mut name, 'x');
                push_char(&mut name, 't');
                assert(name@ =~= stem@ + seq!['.', 't', 'x', 't']);
                Some(output_dir.join(name.as_str()))
            },
            None => None,
        }
    }

    /// The optional file `input.in` beside `input`, whose contents the
    /// compiled program reads; none where `input` has no parent.
    pub fn stdin_file(&self, input: &FsPath) -> (r: Option<FsPath>)
        ensures
            match r {
                Some(p) => spec_parent(input@) matches Some(dir) && p@ == spec_join(dir, "input.in"@),
                None => spec_parent(input@) is None,
            },
    {
        match input.parent() {
            Some(dir) => Some(dir.join("input.in")),
            None => None,
        }
    }
}

} // verus!
