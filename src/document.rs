use vstd::prelude::*;

use vstd::string::{StrSliceExecFns, StringExecFns};

use crate::automaton::tokens_of;
use crate::token::{outcome_view, LatexToken, LatexTokenizerError};
use crate::tokenizer::LatexTokenizer;

verus! {

/// A header line starts with two `%` characters.
pub open spec fn is_header_line(line: Seq<char>) -> bool {
    line.len() >= 2 && line[0] == '%' && line[1] == '%'
}

/// `h` is where the header of `lines` ends: every line before it is a header
/// line, and the line at `h`, if any, is not.
pub open spec fn is_header_end(lines: Seq<Seq<char>>, h: int) -> bool {
    &&& 0 <= h <= lines.len()
    &&& forall|j: int| 0 <= j < h ==> is_header_line(#[trigger] lines[j])
    &&& h < lines.len() ==> !is_header_line(lines[h])
}

/// The lines joined with nothing between them.
pub open spec fn concat_lines(lines: Seq<Seq<char>>) -> Seq<char>
    decreases lines.len(),
{
    if lines.len() == 0 {
        Seq::empty()
    } else {
        concat_lines(lines.drop_last()) + lines.last()
    }
}

/// The content of a document given as lines: the header lines are dropped and
/// the others are joined with nothing between them.
pub open spec fn document_content(lines: Seq<Seq<char>>) -> Seq<char> {
    let h = choose|h: int| is_header_end(lines, h);
    concat_lines(lines.subrange(h, lines.len() as int))
}

/// A document whose header has been removed and whose lines have been joined.
#[derive(Clone)]
pub struct AnnotatedLatexDocument {
    content: String,
}

impl View for AnnotatedLatexDocument {
    type V = Seq<char>;

    closed spec fn view(&self) -> Seq<char> {
        self.content@
    }
}

impl AnnotatedLatexDocument {
    /// Builds a document from its lines, as read from a file without their line
    /// breaks.
    pub fn from_lines(lines: &Vec<String>) -> (r: AnnotatedLatexDocument)
        ensures
            r@ == document_content(lines@.map_values(|l: String| l@)),
    {
        let ghost views = lines@.map_values(|l: String| l@);
        let mut content = String::new();
        let mut header = true;
        let ghost mut h: int = 0;
        let mut i: usize = 0;
        while i < lines.len()
            invariant
                i <= lines.len(),
                views == lines@.map_values(|l: String| l@),
                0 <= h <= i,
                forall|j: int| 0 <= j < h ==> is_header_line(#[trigger] views[j]),
                header ==> h == i,
                !header ==> h < i && !is_header_line(views[h]),
                content@ == concat_lines(views.subrange(h, i as int)),
            decreases lines.len() - i,
        {
            let line = lines[i].as_str();
            if header {
                let n = line.unicode_len();
                if n < 2 || line.get_char(0) != '%' || line.get_char(1) != '%' {
                    header = false;
                }
            }
            if header {
                proof {
                    h = i + 1;
                }
            } else {
                content.append(line);
                assert(views.subrange(h, i + 1).drop_last() =~= views.subrange(h, i as int));
            }
            i = i + 1;
        }
        assert(is_header_end(views, h));
        assert(forall|k: int| is_header_end(views, k) ==> k == h) by {
            assert forall|k: int| is_header_end(views, k) implies k == h by {
                if k < h {
                    assert(is_header_line(views[k]));
                } else if k > h {
                    assert(is_header_line(views[h]));
                }
            }
        }
        AnnotatedLatexDocument { content }
    }

    /// Tokenizes the content with a fresh tokenizer.
    pub fn tokenize(&self) -> (r: Result<Vec<LatexToken>, LatexTokenizerError>)
        ensures
            outcome_view(r) == tokens_of(self@),
    {
        LatexTokenizer::new().tokenize(self.content.as_str())
    }
}

} // verus!
