use vstd::prelude::*;

verus! {

/// An error to show to the user: a message, and optionally the text of the
/// error that caused it.
#[derive(Clone, Debug)]
pub struct ErrorData {
    message: String,
    error: Option<String>,
}

/// What an [`ErrorData`] holds.
pub struct ErrorDataView {
    pub message: Seq<char>,
    pub error: Option<Seq<char>>,
}

impl View for ErrorData {
    type V = ErrorDataView;

    closed spec fn view(&self) -> ErrorDataView {
        ErrorDataView {
            message: self.message@,
            error: match self.error {
                Some(e) => Some(e@),
                None => None,
            },
        }
    }
}

impl ErrorData {
    /// An error with a message and nothing more to show.
    pub fn new(message: &str) -> (data: ErrorData)
        ensures
            data@.message == message@,
            data@.error is None,
    {
        ErrorData { message: String::from_str(message), error: None }
    }

    /// An error with a message and the text of the error that caused it.
    pub fn new_with_error(message: &str, error: String) -> (data: ErrorData)
        ensures
            data@.message == message@,
            data@.error == Some(error@),
    {
        ErrorData { message: String::from_str(message), error: Some(error) }
    }

    /// An error with an owned message and nothing more to show.
    pub fn new_from_string(message: String) -> (data: ErrorData)
        ensures
            data@.message == message@,
            data@.error is None,
    {
        ErrorData { message, error: None }
    }

    /// The message.
    pub fn message(&self) -> (message: &String)
        ensures
            message@ == self@.message,
    {
        &self.message
    }

    /// The text of the error that caused it, if any.
    pub fn error(&self) -> (error: Option<&String>)
        ensures
            match error {
                Some(e) => self@.error == Some(e@),
                None => self@.error is None,
            },
    {
        match &self.error {
            Some(e) => Some(e),
            None => None,
        }
    }
}

impl ErrorData {
    /// Whether the two errors show the same message and error text.
    pub fn same_as(&self, other: &ErrorData) -> (same: bool)
        ensures
            same == (self@ == other@),
    {
        let same_message: bool = self.message == other.message;
        let same_error: bool = match (&self.error, &other.error) {
            (Some(a), Some(b)) => {
                let same: bool = *a == *b;
                same
            },
            (None, None) => true,
            _ => false,
        };
        same_message && same_error
    }
}

/// Dismisses an error the user closed: the first error of the list equal to
/// it is removed; nothing changes when there is none.
pub fn dismiss_error(errors: &mut Vec<ErrorData>, error: &ErrorData)
    ensures
        (forall|j: int| 0 <= j < old(errors)@.len() ==> old(errors)@[j]@ != error@) ==> final(errors)@ == old(errors)@,
        forall|i: int|
            0 <= i < old(errors)@.len() && old(errors)@[i]@ == error@ && (forall|j: int|
                0 <= j < i ==> old(errors)@[j]@ != error@) ==> final(errors)@ == old(errors)@.remove(i),
{
    let mut i: usize = 0;
    while i < errors.len()
        invariant
            i <= errors@.len(),
            errors@ == old(errors)@,
            forall|j: int| 0 <= j < i ==> errors@[j]@ != error@,
        decreases errors@.len() - i,
    {
        if errors[i].same_as(error) {
            let ghost s = errors@;
            errors.remove(i);
            proof {
                assert forall|k: int|
                    0 <= k < s.len() && s[k]@ == error@ && (forall|j: int| 0 <= j < k ==> s[j]@ != error@) implies k == i by {
                    if k > i {
                        assert(s[i as int]@ == error@);
                    }
                }
            }
            return;
        }
        i = i + 1;
    }
}

/// The id of the event the user is looking at.
#[derive(Clone, Debug)]
pub struct EventId {
    id: String,
}

impl View for EventId {
    type V = Seq<char>;

    closed spec fn view(&self) -> Seq<char> {
        self.id@
    }
}

impl EventId {
    pub fn new(id: String) -> (event_id: EventId)
        ensures
            event_id@ == id@,
    {
        EventId { id }
    }

    /// The id as text, as it is displayed.
    pub fn as_text(&self) -> (text: &String)
        ensures
            text@ == self@,
    {
        &self.id
    }
}

} // verus!
