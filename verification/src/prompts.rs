//! Building the grounding prompt that ties retrieved context to a question.

use vstd::prelude::*;

verus! {

/// The grounding prompt for `context` and `question`: a fixed instructional
/// template with the two values spliced in, context first.
pub open spec fn grounding_prompt(question: Seq<char>, context: Seq<char>) -> Seq<char> {
    "\nCompose a comprehensive reply to the user query using the context given to you.\nMake sure to follow below rules:\n1. Please refrain from inventing answers.\n2. Refuse to answer any question outside of provided context.\n3. Understand the content very carefully to answer questions\n\nUse the following parameters to answer the question:\n---------\n\nCONTEXT:\n"@
        + context
        + "\n\nQUESTION:\n"@
        + question
        + "\n"@
}

/// Builds the grounding prompt by splicing `context` and `question` into the
/// fixed template.
///
/// The two values are concatenated between the template's fixed parts rather
/// than substituted for placeholder tokens, so an input that itself contains
/// placeholder-looking text cannot disturb the result.
pub fn contruct_propmt(question: &str, context: &str) -> (r: String)
    ensures
        r@ == grounding_prompt(question@, context@),
{
    let mut r = String::new();
    r.append("\nCompose a comprehensive reply to the user query using the context given to you.\nMake sure to follow below rules:\n1. Please refrain from inventing answers.\n2. Refuse to answer any question outside of provided context.\n3. Understand the content very carefully to answer questions\n\nUse the following parameters to answer the question:\n---------\n\nCONTEXT:\n");
    r.append(context);
    r.append("\n\nQUESTION:\n");
    r.append(question);
    r.append("\n");
    r
}

} // verus!
