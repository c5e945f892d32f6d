//! The server's settings: a text of which the second line names the port
//! and the third the number of workers.

use crate::text::{append_chars, chars_of, line_at, nth_line, replace, replace_all, string_of};
use vstd::prelude::*;

verus! {

/// Whether a settings text has the three lines that a lookup reads.
pub open spec fn complete(contents: Seq<char>) -> bool {
    nth_line(contents, 2) is Some
}

/// The value of the setting `name` in a complete settings text.
///
/// `PORT` is line 1 with every `Port: ` struck out, `THREAD_POOL_SIZE` is
/// line 2 with every `ThreadPoolSize: ` struck out, and any other name
/// gets a notice in place of a value.
pub open spec fn setting(contents: Seq<char>, name: Seq<char>) -> Seq<char> {
    if name == "PORT"@ {
        replace_all(nth_line(contents, 1)->0, "Port: "@, Seq::empty())
    } else if name == "THREAD_POOL_SIZE"@ {
        replace_all(nth_line(contents, 2)->0, "ThreadPoolSize: "@, Seq::empty())
    } else {
        "Unable to read config file!"@
    }
}

/// A text with a line `k + 1` has a line `k`.
pub proof fn lemma_line_before(s: Seq<char>, k: nat)
    requires
        nth_line(s, k + 1) is Some,
    ensures
        nth_line(s, k) is Some,
    decreases k,
{
    if k > 0 {
        let p = crate::text::position(s, '\n');
        lemma_line_before(s.skip(p + 1), (k - 1) as nat);
    }
}

/// The reader of the settings text.
pub struct Config;

impl Config {
    /// Tells whether `contents` has a line `k`, counted from zero. A text
    /// with a line 2 has the lines that `loadConfig` reads.
    pub fn has_line(contents: &str, k: usize) -> (ok: bool)
        ensures
            ok == nth_line(contents@, k as nat) is Some,
            k == 2 ==> ok == complete(contents@),
    {
        line_at(&chars_of(contents), k).is_some()
    }

    /// Looks the setting `name` up in the settings text `contents`.
    #[allow(non_snake_case)]
    pub fn loadConfig(contents: &str, name: String) -> (value: String)
        requires
            complete(contents@),
        ensures
            value@ == setting(contents@, name@),
    {
        let text = chars_of(contents);
        let nothing: Vec<char> = Vec::new();
        assert(nothing@ =~= Seq::<char>::empty());
        proof {
            lemma_line_before(text@, 1);
        }
        if name == String::from_str("PORT") {
            let port_line = line_at(&text, 1).unwrap();
            string_of(&replace(&port_line, &chars_of("Port: "), &nothing))
        } else if name == String::from_str("THREAD_POOL_SIZE") {
            let size_line = line_at(&text, 2).unwrap();
            string_of(&replace(&size_line, &chars_of("ThreadPoolSize: "), &nothing))
        } else {
            String::from_str("Unable to read config file!")
        }
    }

    /// The settings text that a first start writes.
    pub fn default_text() -> (contents: String)
        ensures
            contents@ == "#Config for WebServer\nPort: 7878\nThreadPoolSize: 5\n"@,
    {
        String::from_str("#Config for WebServer\nPort: 7878\nThreadPoolSize: 5\n")
    }

    /// The address to listen on, on the local host, for a port setting.
    pub fn address(port: &str) -> (bind: String)
        ensures
            bind@ == "127.0.0.1:"@ + port@,
    {
        let mut out = chars_of("127.0.0.1:");
        append_chars(&mut out, &chars_of(port));
        string_of(&out)
    }
}

} // verus!
