//! A read-only snapshot of the vault's fact store: one entry per note,
//! combining its file handle, canonical name, text-revision stamp,
//! position index and parsed structure, with first-match lookup by path
//! and by name.

use vstd::prelude::*;
use crate::model::{
    Heading, HeadingV, InternLink, InternLinkV, NoteFile, NoteName, NoteStructure, headings_view,
    links_view,
};
use crate::text::TextIndex;

verus! {

/// One note's fact view: a versioned, read-only snapshot of its parsed
/// structure at a given text revision.
pub struct Note {
    pub file: NoteFile,
    pub name: NoteName,
    pub version: i32,
    pub index: TextIndex,
    pub structure: NoteStructure,
}

/// The mathematical value of a [`Note`].
#[verifier::ext_equal]
pub struct NoteV {
    pub path: Seq<char>,
    pub name: Seq<char>,
    pub version: i32,
    pub text: Seq<char>,
    pub headings: Seq<HeadingV>,
    pub links: Seq<InternLinkV>,
}

impl View for Note {
    type V = NoteV;

    open spec fn view(&self) -> NoteV {
        NoteV {
            path: self.file@,
            name: self.name@,
            version: self.version,
            text: self.index.text(),
            headings: headings_view(self.structure.headings@),
            links: links_view(self.structure.links@),
        }
    }
}

/// The vault-wide fact store: every note's current snapshot, in one
/// fixed order.  Lookups resolve to the first match, so contracts stay
/// meaningful even if two notes were ever given one name.
pub struct FactsDB {
    pub notes: Vec<Note>,
}

impl View for FactsDB {
    type V = Seq<NoteV>;

    open spec fn view(&self) -> Seq<NoteV> {
        self.notes@.map_values(|n: Note| n@)
    }
}

/// The index of the first note whose path is `path`, if any.
pub open spec fn find_by_path_spec(db: Seq<NoteV>, path: Seq<char>) -> Option<int>
    decreases db.len(),
{
    if db.len() == 0 {
        None
    } else if db.first().path == path {
        Some(0)
    } else {
        match find_by_path_spec(db.drop_first(), path) {
            Some(i) => Some(i + 1),
            None => None,
        }
    }
}

/// The index of the first note whose name is `name`, if any.
pub open spec fn find_by_name_spec(db: Seq<NoteV>, name: Seq<char>) -> Option<int>
    decreases db.len(),
{
    if db.len() == 0 {
        None
    } else if db.first().name == name {
        Some(0)
    } else {
        match find_by_name_spec(db.drop_first(), name) {
            Some(i) => Some(i + 1),
            None => None,
        }
    }
}

/// Some heading of `hs` has exactly the text `t`.
pub open spec fn has_heading_text(hs: Seq<HeadingV>, t: Seq<char>) -> bool {
    exists|i: int| 0 <= i < hs.len() && hs[i].text == t
}

impl FactsDB {
    /// Resolve a note by its file path; first match wins.
    pub fn find_by_path(&self, path: &String) -> (r: Option<usize>)
        ensures
            match r {
                Some(i) => 0 <= i < self@.len() && find_by_path_spec(self@, path@) == Some(
                    i as int,
                ),
                None => find_by_path_spec(self@, path@) is None,
            },
    {
        let n = self.notes.len();
        proof {
            assert(self@.skip(0) =~= self@);
        }
        for i in 0..n
            invariant
                n == self@.len(),
                forall|j: int| 0 <= j < i ==> self@[j].path != path@,
                find_by_path_spec(self@, path@) == shift_opt(
                    find_by_path_spec(self@.skip(i as int), path@),
                    i as int,
                ),
        {
            let ghost pre = self@.skip(i as int);
            if self.notes[i].file.path == *path {
                proof {
                    assert(pre.first() == self@[i as int]);
                }
                return Some(i);
            }
            proof {
                assert(pre.first() == self@[i as int]);
                assert(pre.drop_first() =~= self@.skip(i + 1));
            }
        }
        proof {
            assert(self@.skip(n as int) =~= Seq::<NoteV>::empty());
        }
        None
    }

    /// Resolve a note by its canonical name; first match wins.
    pub fn find_by_name(&self, name: &NoteName) -> (r: Option<usize>)
        ensures
            match r {
                Some(i) => 0 <= i < self@.len() && find_by_name_spec(self@, name@) == Some(
                    i as int,
                ),
                None => find_by_name_spec(self@, name@) is None,
            },
    {
        let n = self.notes.len();
        proof {
            assert(self@.skip(0) =~= self@);
        }
        for i in 0..n
            invariant
                n == self@.len(),
                forall|j: int| 0 <= j < i ==> self@[j].name != name@,
                find_by_name_spec(self@, name@) == shift_opt(
                    find_by_name_spec(self@.skip(i as int), name@),
                    i as int,
                ),
        {
            let ghost pre = self@.skip(i as int);
            if self.notes[i].name.name == name.name {
                proof {
                    assert(pre.first() == self@[i as int]);
                }
                return Some(i);
            }
            proof {
                assert(pre.first() == self@[i as int]);
                assert(pre.drop_first() =~= self@.skip(i + 1));
            }
        }
        proof {
            assert(self@.skip(n as int) =~= Seq::<NoteV>::empty());
        }
        None
    }
}

/// Shifts an optional index by `d`.
pub open spec fn shift_opt(o: Option<int>, d: int) -> Option<int> {
    match o {
        Some(i) => Some(i + d),
        None => None,
    }
}

impl Note {
    /// Look a heading up by its exact text.  The returned heading is one
    /// of the note's own and carries exactly the asked-for text.
    pub fn heading_with_text(&self, text: &String) -> (r: Option<&Heading>)
        ensures
            r is Some <==> has_heading_text(self@.headings, text@),
            match r {
                Some(h) => self@.headings.contains(h@) && h@.text == text@,
                None => true,
            },
    {
        let n = self.structure.headings.len();
        for i in 0..n
            invariant
                n == self.structure.headings@.len(),
                forall|j: int| 0 <= j < i ==> self@.headings[j].text != text@,
        {
            proof {
                assert(self@.headings[i as int] == self.structure.headings@[i as int]@);
            }
            if self.structure.headings[i].text == *text {
                return Some(&self.structure.headings[i]);
            }
        }
        None
    }
}

} // verus!
