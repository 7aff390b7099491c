//! The text that shows a file in the output of a failed assertion.
use vstd::prelude::*;

verus! {

/// The debug text of a file, and whether all of the file is in it.
pub struct DebugText {
    /// The path, a line break, the file's text and, where reading failed, a
    /// note of the failure.
    pub text: String,
    /// Whether the file was read to its end.
    pub complete: bool,
}

/// The views of `parts`, in order.
pub open spec fn texts_of(parts: Seq<String>) -> Seq<Seq<char>> {
    Seq::new(parts.len(), |i: int| parts[i]@)
}

/// The view of `message`, where there is one.
pub open spec fn message_of(message: Option<String>) -> Option<Seq<char>> {
    match message {
        Some(text) => Some(text@),
        None => None,
    }
}

/// The note that ends the debug text of a file whose reading failed.
pub open spec fn failure_note(filepath: Seq<char>, message: Seq<char>) -> Seq<char> {
    "Error: failed to read source file "@ + filepath + ": "@ + message
}

/// What follows the file's text: the note of the failure that ended reading,
/// or nothing.
pub open spec fn ending(filepath: Seq<char>, read_error: Option<Seq<char>>) -> Seq<char> {
    match read_error {
        Some(message) => failure_note(filepath, message),
        None => Seq::empty(),
    }
}

/// The debug text made of a path, the decoded chunks of a file and the
/// failure that ended reading: the path on a line of its own, then the chunks
/// one after another, then the note of the failure if there was one.
pub open spec fn assembled(
    filepath: Seq<char>,
    parts: Seq<Seq<char>>,
    read_error: Option<Seq<char>>,
) -> Seq<char> {
    filepath + "\n"@ + parts.flatten() + ending(filepath, read_error)
}

/// Puts a debug text together from the path, the decoded chunks and the
/// failure that ended reading. The text is complete where there was none.
pub fn assemble_debug_text(filepath: &str, parts: &Vec<String>, read_error: &Option<String>) -> (out:
    DebugText)
    ensures
        out.text@ == assembled(filepath@, texts_of(parts@), message_of(*read_error)),
        out.complete == (read_error is None),
{
    let mut text = String::from_str(filepath);
    text.append("\n");
    let mut taken: usize = 0;
    assert(texts_of(parts@.subrange(0, 0)).flatten() == Seq::<char>::empty());
    while taken < parts.len()
        invariant
            taken <= parts.len(),
            text@ == filepath@ + "\n"@ + texts_of(parts@.subrange(0, taken as int)).flatten(),
        decreases parts.len() - taken,
    {
        proof {
            let before = texts_of(parts@.subrange(0, taken as int));
            assert(texts_of(parts@.subrange(0, taken + 1)) == before.push(parts@[taken as int]@));
            before.lemma_flatten_push(parts@[taken as int]@);
        }
        text.append(parts[taken].as_str());
        taken = taken + 1;
    }
    assert(parts@.subrange(0, taken as int) == parts@);
    match read_error {
        Some(message) => {
            text.append("Error: failed to read source file ");
            text.append(filepath);
            text.append(": ");
            text.append(message.as_str());
            DebugText { text, complete: false }
        },
        None => DebugText { text, complete: true },
    }
}

/// A character that one of the parts holds is held by all of them put
/// together.
pub proof fn lemma_flatten_holds(parts: Seq<Seq<char>>, index: int, held: char)
    requires
        0 <= index < parts.len(),
        parts[index].contains(held),
    ensures
        parts.flatten().contains(held),
    decreases parts.len(),
{
    let first = parts.first();
    let later = parts.drop_first().flatten();
    if index == 0 {
        let at = choose|at: int| 0 <= at < first.len() && first[at] == held;
        assert((first + later)[at] == held);
    } else {
        lemma_flatten_holds(parts.drop_first(), index - 1, held);
        let at = choose|at: int| 0 <= at < later.len() && later[at] == held;
        assert((first + later)[first.len() + at] == held);
    }
}

} // verus!
