//! Quoting text for a POSIX shell, as `shell_escape` does on Unix.

use vstd::prelude::*;

verus! {

/// The characters that need no quoting: ASCII letters and digits and
/// `-_=/,.+`.
pub open spec fn shell_safe(c: char) -> bool {
    let u = c as u32;
    ||| 0x61 <= u <= 0x7a
    ||| 0x41 <= u <= 0x5a
    ||| 0x30 <= u <= 0x39
    ||| c == '-'
    ||| c == '_'
    ||| c == '='
    ||| c == '/'
    ||| c == ','
    ||| c == '.'
    ||| c == '+'
}

/// One character inside single quotes: `'` and `!` close the quotes, are
/// written escaped, and reopen them.
pub open spec fn quoted_char(c: char) -> Seq<char> {
    if c == '\'' || c == '!' {
        seq!['\'', '\\', c, '\'']
    } else {
        seq![c]
    }
}

/// The characters of `s`, each as `quoted_char` writes it.
pub open spec fn quoted_body(s: Seq<char>) -> Seq<char>
    decreases s.len(),
{
    if s.len() == 0 {
        Seq::empty()
    } else {
        quoted_body(s.drop_last()) + quoted_char(s.last())
    }
}

/// `shell_escape::unix::escape`: a non-empty text made only of safe
/// characters is left as it is; any other text is put in single quotes.
pub open spec fn shell_escaped(s: Seq<char>) -> Seq<char> {
    if s.len() > 0 && forall|i: int| 0 <= i < s.len() ==> shell_safe(#[trigger] s[i]) {
        s
    } else {
        seq!['\''] + quoted_body(s) + seq!['\'']
    }
}

/// `shell_escape::unix::escape`, whose whole behaviour `shell_escaped`
/// states (read from the crate's source: a whitelist test, then quoting
/// character by character). The Unix form is called directly, so the
/// result does not depend on the platform.
#[verifier::external_body]
pub(crate) fn escape_for_shell(s: &str) -> (r: String)
    ensures
        r@ == shell_escaped(s@),
{
    shell_escape::unix::escape(std::borrow::Cow::Borrowed(s)).into_owned()
}

} // verus!
