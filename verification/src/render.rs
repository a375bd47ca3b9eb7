//! Commands as one line of text, for display.
use crate::names;
use crate::text;
use vstd::prelude::*;
use vstd::string::*;

verus! {

/// An ASCII letter or digit.
pub open spec fn is_alphanumeric(c: char) -> bool {
    'a' <= c <= 'z' || 'A' <= c <= 'Z' || '0' <= c <= '9'
}

/// Whether `c` is an ASCII letter or digit.
pub fn alphanumeric(c: char) -> (r: bool)
    ensures
        r == is_alphanumeric(c),
{
    ('a' <= c && c <= 'z') || ('A' <= c && c <= 'Z') || ('0' <= c && c <= '9')
}

/// A character that needs no quotes.
pub open spec fn is_plain_char(c: char) -> bool {
    ||| is_alphanumeric(c)
    ||| c == '_' || c == '@' || c == '%' || c == '+' || c == '=' || c == ':' || c == ','
    ||| c == '.' || c == '/' || c == '-'
}

/// A word that needs no quotes.
pub open spec fn is_plain(word: Seq<char>) -> bool {
    word.len() != 0 && forall|i: int| 0 <= i < word.len() ==> is_plain_char(#[trigger] word[i])
}

/// A quote inside quotes: close, an escaped quote, open again.
pub open spec fn escaped_quote() -> Seq<char> {
    seq!['\'', '\\', '\'', '\'']
}

/// `word` with each quote in it escaped.
pub open spec fn escape(word: Seq<char>) -> Seq<char>
    decreases word.len(),
{
    if word.len() == 0 {
        seq![]
    } else if word[0] == '\'' {
        escaped_quote() + escape(word.drop_first())
    } else {
        seq![word[0]] + escape(word.drop_first())
    }
}

/// One word of a command as it is displayed.
pub open spec fn token(word: Seq<char>) -> Seq<char> {
    if is_plain(word) {
        word
    } else {
        seq!['\''] + escape(word) + seq!['\'']
    }
}

/// The given words as displayed, a space before each.
pub open spec fn spaced_tokens(list: Seq<Seq<char>>) -> Seq<char>
    decreases list.len(),
{
    if list.len() == 0 {
        seq![]
    } else {
        seq![' '] + token(list[0]) + spaced_tokens(list.drop_first())
    }
}

/// A command as displayed: its program and arguments, with a space between.
pub open spec fn command_line(program: Seq<char>, args: Seq<Seq<char>>) -> Seq<char> {
    token(program) + spaced_tokens(args)
}

fn plain_char(c: char) -> (r: bool)
    ensures
        r == is_plain_char(c),
{
    alphanumeric(c) || c == '_' || c == '@' || c == '%' || c == '+' || c == '=' || c == ':' || c
        == ',' || c == '.' || c == '/' || c == '-'
}

fn plain(chars: &[char]) -> (r: bool)
    ensures
        r == is_plain(chars@),
{
    let n = chars.len();
    if n == 0 {
        return false;
    }
    for i in 0..n
        invariant
            n == chars@.len(),
            forall|j: int| 0 <= j < i ==> is_plain_char(#[trigger] chars@[j]),
    {
        if !plain_char(chars[i]) {
            return false;
        }
    }
    true
}

/// One word of a command as it is displayed: bare where that is unambiguous,
/// and in single quotes otherwise.
pub fn shell_display_token(value: &str) -> (r: String)
    ensures
        r@ == token(value@),
{
    let chars = text::chars_of(value);
    if plain(chars.as_slice()) {
        return value.to_owned();
    }
    let mut r = String::new();
    r.push('\'');
    let n = chars.len();
    assert(chars@.skip(0) == value@);
    for i in 0..n
        invariant
            n == chars@.len(),
            chars@ == value@,
            seq!['\''] + escape(value@) == r@ + escape(chars@.skip(i as int)),
    {
        let c = chars[i];
        let ghost was = r@;
        if c == '\'' {
            r.push('\'');
            r.push('\\');
            r.push('\'');
            r.push('\'');
            assert(r@ == was + escaped_quote());
        } else {
            r.push(c);
            assert(r@ == was + seq![c]);
        }
        assert(chars@.skip(i as int).drop_first() == chars@.skip(i + 1));
    }
    assert(chars@.skip(n as int).len() == 0);
    assert(r@ == seq!['\''] + escape(value@));
    r.push('\'');
    r
}

/// A command as displayed: its program and arguments, with a space between.
pub fn render_command(program: &str, args: &[String]) -> (r: String)
    ensures
        r@ == command_line(program@, names::texts(args@)),
{
    let mut r = shell_display_token(program);
    let ghost list = names::texts(args@);
    let n = args.len();
    assert(list.skip(0) == list);
    for i in 0..n
        invariant
            n == args@.len(),
            list == names::texts(args@),
            command_line(program@, list) == r@ + spaced_tokens(list.skip(i as int)),
    {
        let word = shell_display_token(args[i].as_str());
        let ghost was = r@;
        r.push(' ');
        r.append(word.as_str());
        assert(list.skip(i as int).drop_first() == list.skip(i + 1));
        assert(r@ == was + (seq![' '] + token(list[i as int])));
    }
    assert(list.skip(n as int).len() == 0);
    r
}

/// The text after a word is displayed: nothing, or a space and more.
pub open spec fn after_word(rest: Seq<char>) -> bool {
    rest.len() == 0 || rest[0] == ' '
}

proof fn lemma_escape_determines(a: Seq<char>, b: Seq<char>, x: Seq<char>, y: Seq<char>)
    requires
        after_word(x),
        after_word(y),
        escape(a) + seq!['\''] + x == escape(b) + seq!['\''] + y,
    ensures
        a == b,
        x == y,
    decreases a.len(),
{
    let left = escape(a) + seq!['\''] + x;
    let right = escape(b) + seq!['\''] + y;
    if a.len() == 0 && b.len() == 0 {
        assert(a == b);
        assert(x == left.skip(1));
        assert(y == right.skip(1));
    } else if a.len() == 0 {
        if b[0] == '\'' {
            assert(right[1] == '\\');
            assert(left[1] == x[0]);
        } else {
            assert(right[0] == b[0]);
            assert(left[0] == '\'');
        }
        assert(false);
    } else if b.len() == 0 {
        if a[0] == '\'' {
            assert(left[1] == '\\');
            assert(right[1] == y[0]);
        } else {
            assert(left[0] == a[0]);
            assert(right[0] == '\'');
        }
        assert(false);
    } else {
        assert(left[0] == a[0]);
        assert(right[0] == b[0]);
        let k: int = if a[0] == '\'' {
            4
        } else {
            1
        };
        let a1 = a.drop_first();
        let b1 = b.drop_first();
        assert(left.skip(k) == escape(a1) + seq!['\''] + x);
        assert(right.skip(k) == escape(b1) + seq!['\''] + y);
        lemma_escape_determines(a1, b1, x, y);
        assert(a == seq![a[0]] + a1);
        assert(b == seq![b[0]] + b1);
    }
}

/// A displayed word tells the word and where it ends.
pub proof fn lemma_token_determines(a: Seq<char>, b: Seq<char>, x: Seq<char>, y: Seq<char>)
    requires
        after_word(x),
        after_word(y),
        token(a) + x == token(b) + y,
    ensures
        a == b,
        x == y,
{
    let left = token(a) + x;
    let right = token(b) + y;
    if is_plain(a) && is_plain(b) {
        if a.len() < b.len() {
            assert(left.len() == a.len() + x.len());
            assert(right[a.len() as int] == b[a.len() as int]);
            assert(left[a.len() as int] == x[0]);
            assert(is_plain_char(b[a.len() as int]));
            assert(false);
        }
        if b.len() < a.len() {
            assert(left[b.len() as int] == a[b.len() as int]);
            assert(right[b.len() as int] == y[0]);
            assert(is_plain_char(a[b.len() as int]));
            assert(false);
        }
        assert(a == left.take(a.len() as int));
        assert(b == right.take(a.len() as int));
        assert(x == left.skip(a.len() as int));
        assert(y == right.skip(a.len() as int));
    } else if is_plain(a) {
        assert(left[0] == a[0]);
        assert(is_plain_char(a[0]));
        assert(right[0] == '\'');
        assert(false);
    } else if is_plain(b) {
        assert(right[0] == b[0]);
        assert(is_plain_char(b[0]));
        assert(left[0] == '\'');
        assert(false);
    } else {
        assert(left.skip(1) == escape(a) + seq!['\''] + x);
        assert(right.skip(1) == escape(b) + seq!['\''] + y);
        lemma_escape_determines(a, b, x, y);
    }
}

proof fn lemma_spaced_tokens_determine(a: Seq<Seq<char>>, b: Seq<Seq<char>>)
    requires
        spaced_tokens(a) == spaced_tokens(b),
    ensures
        a == b,
    decreases a.len(),
{
    if a.len() == 0 || b.len() == 0 {
        assert(a == b);
    } else {
        let x = spaced_tokens(a.drop_first());
        let y = spaced_tokens(b.drop_first());
        assert(spaced_tokens(a).skip(1) == token(a[0]) + x);
        assert(spaced_tokens(b).skip(1) == token(b[0]) + y);
        lemma_token_determines(a[0], b[0], x, y);
        lemma_spaced_tokens_determine(a.drop_first(), b.drop_first());
        assert(a == seq![a[0]] + a.drop_first());
        assert(b == seq![b[0]] + b.drop_first());
    }
}

/// The display is unambiguous: commands that are displayed alike have the
/// same program and the same arguments.
pub proof fn law_command_line_is_unambiguous(
    program: Seq<char>,
    args: Seq<Seq<char>>,
    other_program: Seq<char>,
    other_args: Seq<Seq<char>>,
)
    requires
        command_line(program, args) == command_line(other_program, other_args),
    ensures
        program == other_program,
        args == other_args,
{
    lemma_token_determines(
        program,
        other_program,
        spaced_tokens(args),
        spaced_tokens(other_args),
    );
    lemma_spaced_tokens_determine(args, other_args);
}

/// A word is displayed bare exactly where it is not empty and consists of ASCII
/// letters, digits and these ten characters; any other is displayed between
/// single quotes.
pub proof fn law_plain_words_are_displayed_bare(word: Seq<char>)
    ensures
        ({
            let plain = word.len() > 0 && forall|i: int|
                0 <= i < word.len() ==> {
                    let c = #[trigger] word[i];
                    ||| 'a' <= c <= 'z' || 'A' <= c <= 'Z' || '0' <= c <= '9'
                    ||| c == '_' || c == '@' || c == '%' || c == '+' || c == '='
                    ||| c == ':' || c == ',' || c == '.' || c == '/' || c == '-'
                };
            &&& plain ==> token(word) == word
            &&& !plain ==> token(word) == seq!['\''] + escape(word) + seq!['\'']
        }),
{
    if is_plain(word) {
        assert forall|i: int| 0 <= i < word.len() implies {
            let c = #[trigger] word[i];
            ||| 'a' <= c <= 'z' || 'A' <= c <= 'Z' || '0' <= c <= '9'
            ||| c == '_' || c == '@' || c == '%' || c == '+' || c == '='
            ||| c == ':' || c == ',' || c == '.' || c == '/' || c == '-'
        } by {
            assert(is_plain_char(word[i]));
        }
    } else if word.len() > 0 {
        let i = choose|i: int| 0 <= i < word.len() && !is_plain_char(#[trigger] word[i]);
        assert(!is_plain_char(word[i]));
    }
}

/// Between quotes each character stands for itself, but for a quote, which is
/// closed, escaped and opened again; that holds of every part of a word by
/// itself.
pub proof fn law_quotes_are_escaped_one_by_one(a: Seq<char>, c: char, b: Seq<char>)
    ensures
        escape(a + b) == escape(a) + escape(b),
        escape(seq![c]) == if c == '\'' {
            seq!['\'', '\\', '\'', '\'']
        } else {
            seq![c]
        },
        escape(Seq::<char>::empty()).len() == 0,
    decreases a.len(),
{
    assert(seq![c].drop_first() == Seq::<char>::empty());
    assert(escape(Seq::<char>::empty()) == Seq::<char>::empty());
    assert(escape(seq![c]) == if c == '\'' {
        seq!['\'', '\\', '\'', '\'']
    } else {
        seq![c]
    });
    if a.len() == 0 {
        assert(a + b == b);
        assert(escape(a + b) == escape(a) + escape(b));
    } else {
        let rest = a.drop_first();
        law_quotes_are_escaped_one_by_one(rest, c, b);
        assert((a + b)[0] == a[0]);
        assert((a + b).drop_first() == rest + b);
        assert(escape(a + b) == escape(a) + escape(b));
    }
}

proof fn lemma_spaced_tokens_push(list: Seq<Seq<char>>, last: Seq<char>)
    ensures
        spaced_tokens(list.push(last)) == spaced_tokens(list) + seq![' '] + token(last),
    decreases list.len(),
{
    let all = list.push(last);
    if list.len() == 0 {
        assert(all.drop_first() == list);
        assert(spaced_tokens(list) == Seq::<char>::empty());
        assert(spaced_tokens(all) == spaced_tokens(list) + seq![' '] + token(last));
    } else {
        let rest = list.drop_first();
        lemma_spaced_tokens_push(rest, last);
        assert(all[0] == list[0]);
        assert(all.drop_first() == rest.push(last));
        assert(spaced_tokens(all) == spaced_tokens(list) + seq![' '] + token(last));
    }
}

/// A command is displayed by its program, and each argument adds a space and its
/// own display.
pub proof fn law_arguments_are_displayed_one_by_one(
    program: Seq<char>,
    args: Seq<Seq<char>>,
    last: Seq<char>,
)
    ensures
        command_line(program, args.push(last)) == command_line(program, args) + seq![' '] + token(
            last,
        ),
        command_line(program, Seq::<Seq<char>>::empty()) == token(program),
{
    lemma_spaced_tokens_push(args, last);
    assert(command_line(program, args.push(last)) == command_line(program, args) + seq![' ']
        + token(last));
    assert(command_line(program, Seq::<Seq<char>>::empty()) == token(program));
}

} // verus!
