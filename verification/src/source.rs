//! One file's editable text.
//!
//! A [`Source`] owns the text of one file, keyed by its URI and by the
//! [`SourceId`] the manager assigned to it.  The text is stored as a sequence
//! of characters and is mutated only through [`Source::edit`], which
//! translates an editor range into character indices first, and
//! [`Source::replace`], which swaps in a whole new text when no incremental
//! edit data is available.

use vstd::prelude::*;

use crate::position::LspRange;
use crate::position::edited_text;
use crate::position::index_of_position;
use crate::position::lemma_index_of_monotone;
use crate::position::pos_le;
use crate::source_manager::SourceId;

verus! {

/// The mathematical content of a [`Source`]: its handle, its URI, and its
/// text.
pub ghost struct SourceView {
    pub id: int,
    pub uri: Seq<char>,
    pub text: Seq<char>,
}

/// One source file: its URI, its assigned handle, and its current text.
#[derive(Debug)]
pub struct Source {
    id: SourceId,
    uri: String,
    text: Vec<char>,
}

impl View for Source {
    type V = SourceView;

    closed spec fn view(&self) -> SourceView {
        SourceView { id: self.id@, uri: self.uri@, text: self.text@ }
    }
}

/// Collects the characters of a string slice into a vector.
pub fn chars_of(s: &str) -> (r: Vec<char>)
    ensures
        r@ == s@,
{
    let n = s.unicode_len();
    let mut r: Vec<char> = Vec::new();
    let mut i: usize = 0;
    while i < n
        invariant
            i <= n,
            n == s@.len(),
            r@ == s@.subrange(0, i as int),
        decreases n - i,
    {
        r.push(s.get_char(i));
        assert(r@ =~= s@.subrange(0, i + 1 as int));
        i = i + 1;
    }
    assert(r@ =~= s@);
    r
}

impl Source {
    /// Builds a source from editor-supplied or freshly loaded text.
    pub fn new(id: SourceId, uri: String, text: String) -> (s: Source)
        ensures
            s@ == (SourceView { id: id@, uri: uri@, text: text@ }),
    {
        Source { id, uri, text: chars_of(text.as_str()) }
    }

    /// The handle the manager assigned to this file.
    pub fn id(&self) -> (r: SourceId)
        ensures
            r@ == self@.id,
    {
        self.id
    }

    /// The URI of this file.
    pub fn uri(&self) -> (r: &String)
        ensures
            r@ == self@.uri,
    {
        &self.uri
    }

    /// The current text.
    pub fn text(&self) -> (r: &Vec<char>)
        ensures
            r@ == self@.text,
    {
        &self.text
    }

    /// An independent copy with the same handle, URI, and text.
    pub fn duplicate(&self) -> (r: Source)
        ensures
            r@ == self@,
    {
        let mut text: Vec<char> = Vec::new();
        let mut i: usize = 0;
        while i < self.text.len()
            invariant
                i <= self.text@.len(),
                text@ == self.text@.subrange(0, i as int),
            decreases self.text@.len() - i,
        {
            text.push(self.text[i]);
            assert(text@ =~= self.text@.subrange(0, i + 1 as int));
            i = i + 1;
        }
        assert(text@ =~= self.text@);
        Source { id: self.id, uri: self.uri.clone(), text }
    }

    /// Applies an editor edit: the characters the range denotes are replaced
    /// by the replacement text.  The range is given in editor coordinates
    /// and is translated into character indices under its encoding first.
    pub fn edit(&mut self, replace: &LspRange, with: &str)
        requires
            pos_le(replace.start, replace.end),
        ensures
            final(self)@.id == old(self)@.id,
            final(self)@.uri == old(self)@.uri,
            final(self)@.text == edited_text(old(self)@.text, *replace, with@),
    {
        let start = index_of_position(&self.text, replace.start, replace.encoding);
        let end = index_of_position(&self.text, replace.end, replace.encoding);
        proof {
            lemma_index_of_monotone(self.text@, replace.start, replace.end, replace.encoding);
        }
        let mut new_text: Vec<char> = Vec::new();
        let mut i: usize = 0;
        while i < start
            invariant
                i <= start <= self.text@.len(),
                new_text@ == self.text@.subrange(0, i as int),
            decreases start - i,
        {
            new_text.push(self.text[i]);
            assert(new_text@ =~= self.text@.subrange(0, i + 1 as int));
            i = i + 1;
        }
        let insert = chars_of(with);
        let mut j: usize = 0;
        while j < insert.len()
            invariant
                j <= insert@.len(),
                insert@ == with@,
                start <= self.text@.len(),
                new_text@ == self.text@.subrange(0, start as int) + with@.subrange(0, j as int),
            decreases insert@.len() - j,
        {
            new_text.push(insert[j]);
            assert(new_text@ =~= self.text@.subrange(0, start as int) + with@.subrange(
                0,
                j + 1 as int,
            ));
            j = j + 1;
        }
        assert(with@.subrange(0, with@.len() as int) =~= with@);
        let mut k: usize = end;
        while k < self.text.len()
            invariant
                end <= k <= self.text@.len(),
                start <= self.text@.len(),
                new_text@ == self.text@.subrange(0, start as int) + with@ + self.text@.subrange(
                    end as int,
                    k as int,
                ),
            decreases self.text@.len() - k,
        {
            new_text.push(self.text[k]);
            assert(new_text@ =~= self.text@.subrange(0, start as int) + with@ + self.text@.subrange(
                end as int,
                k + 1 as int,
            ));
            k = k + 1;
        }
        assert(new_text@ =~= self.text@.subrange(0, start as int) + with@ + self.text@.subrange(
            end as int,
            self.text@.len() as int,
        ));
        self.text = new_text;
    }

    /// Replaces the whole text, for when the editor sends no range.
    pub fn replace(&mut self, text: String)
        ensures
            final(self)@.id == old(self)@.id,
            final(self)@.uri == old(self)@.uri,
            final(self)@.text == text@,
    {
        self.text = chars_of(text.as_str());
    }
}

} // verus!
