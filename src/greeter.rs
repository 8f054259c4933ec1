//! The greeting service of the RPC example: the text of its replies.
use vstd::prelude::*;
use vstd::string::StringExecFns;

verus! {

/// The text of a greeting for `name`.
pub open spec fn hello_text(name: Seq<char>) -> Seq<char> {
    "hello "@ + name
}

/// The name a request carries, or nothing when it carries none.
pub open spec fn name_or_empty(name: Option<&str>) -> Seq<char> {
    match name {
        Some(n) => n@,
        None => Seq::empty(),
    }
}

/// The greeting service; it holds no state.
pub struct Greeter {}

impl Greeter {
    pub fn new() -> (r: Greeter) {
        Greeter {}
    }

    /// The message of the reply to a single greeting request.
    pub fn reply_message(&self, name: Option<&str>) -> (r: String)
        ensures
            r@ == hello_text(name_or_empty(name)),
    {
        proof {
            reveal_strlit("hello ");
        }
        let greeting = String::from_str("hello ");
        assert(greeting@ == "hello "@);
        match name {
            Some(n) => {
                let r = greeting.concat(n);
                assert(r@ == "hello "@ + n@);
                r
            },
            None => {
                proof {
                    reveal_strlit("");
                }
                let r = greeting.concat("");
                assert(r@ =~= "hello "@);
                r
            },
        }
    }

    /// The messages of the replies to a request for `num_greetings` greetings,
    /// in the order they are streamed.
    pub fn reply_messages(&self, name: Option<&str>, num_greetings: u32) -> (r: Vec<String>)
        ensures
            r.len() == num_greetings,
            forall|i: int| 0 <= i < r.len() ==> #[trigger] r[i]@ == hello_text(name_or_empty(name)),
    {
        let mut out: Vec<String> = Vec::new();
        let mut i: u32 = 0;
        while i < num_greetings
            invariant
                i <= num_greetings,
                out.len() == i,
                forall|j: int| 0 <= j < out.len() ==> #[trigger] out[j]@ == hello_text(name_or_empty(name)),
            decreases num_greetings - i,
        {
            out.push(self.reply_message(name));
            i = i + 1;
        }
        out
    }
}

} // verus!
