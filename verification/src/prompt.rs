//! The prompt that carries a question and the pages it is asked of.

use crate::text::{chars_of, clean, cleaned, string_of};
use crate::types::{instant_text, ScrapedContent};
use vstd::prelude::*;
use vstd::string::*;

verus! {

/// The block that presents one page, before cleaning.
pub open spec fn source_block(page: ScrapedContent) -> Seq<char> {
    "Source: "@ + page.url@ + "\nTimestamp: "@ + instant_text(page.timestamp.nanos as int)
        + "\nContent:\n"@ + page.content@ + "\n---\n"@
}

/// The cleaned blocks of the pages, one after the other.
pub open spec fn blocks_text(pages: Seq<ScrapedContent>) -> Seq<char>
    decreases pages.len(),
{
    if pages.len() == 0 {
        Seq::empty()
    } else {
        blocks_text(pages.drop_last()) + cleaned(source_block(pages.last()))
    }
}

/// The prompt: the question, a space, and the cleaned blocks of the
/// pages.
pub open spec fn prompt_text(query: Seq<char>, pages: Seq<ScrapedContent>) -> Seq<char> {
    query + " "@ + blocks_text(pages)
}

/// Builds a prompt from a question and scraped pages.
pub struct PromptBuilder {
    query: String,
    contents: Vec<ScrapedContent>,
}

impl PromptBuilder {
    /// The question.
    pub closed spec fn query(&self) -> Seq<char> {
        self.query@
    }

    /// The pages, in order.
    pub closed spec fn contents(&self) -> Seq<ScrapedContent> {
        self.contents@
    }

    /// A builder with the question `query` and no pages.
    pub fn new(query: String) -> (builder: PromptBuilder)
        ensures
            builder.query() == query@,
            builder.contents() == Seq::<ScrapedContent>::empty(),
    {
        PromptBuilder { query, contents: Vec::new() }
    }

    /// The builder with `contents` as its pages, in place of those it
    /// had.
    pub fn with_contents(self, contents: Vec<ScrapedContent>) -> (builder: PromptBuilder)
        ensures
            builder.query() == self.query(),
            builder.contents() == contents@,
    {
        PromptBuilder { query: self.query, contents }
    }

    /// The prompt: the question, a space, and for each page its cleaned
    /// block of source, instant and content.
    pub fn build(&self) -> (prompt: String)
        ensures
            prompt@ == prompt_text(self.query(), self.contents()),
    {
        let mut blocks = String::new();
        let mut i: usize = 0;
        while i < self.contents.len()
            invariant
                i <= self.contents.len(),
                blocks@ == blocks_text(self.contents@.take(i as int)),
            decreases self.contents.len() - i,
        {
            let page = &self.contents[i];
            let mut block = String::new();
            block.append("Source: ");
            block.append(page.url.as_str());
            block.append("\nTimestamp: ");
            block.append(page.timestamp.render().as_str());
            block.append("\nContent:\n");
            block.append(page.content.as_str());
            block.append("\n---\n");
            proof {
                assert(block@ =~= source_block(*page));
                assert(self.contents@.take(i + 1).drop_last() =~= self.contents@.take(i as int));
            }
            blocks.append(Self::clean_text(block.as_str()).as_str());
            i += 1;
        }
        proof {
            assert(self.contents@.take(self.contents.len() as int) =~= self.contents@);
        }
        let mut prompt = self.query.clone();
        prompt.append(" ");
        prompt.append(blocks.as_str());
        prompt
    }

    /// The text cleaned: blank lines dropped, the white space inside
    /// each line collapsed to single spaces.
    pub fn clean_text(text: &str) -> (out: String)
        ensures
            out@ == cleaned(text@),
    {
        let chars = chars_of(text);
        let tidy = clean(&chars);
        string_of(&tidy)
    }
}

} // verus!
