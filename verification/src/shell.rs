//! Words for a POSIX shell, and words read back from a line.

use vstd::prelude::*;
use crate::text::{alphanumeric, chars_of, letter_or_digit, join, joined, texts};

verus! {

/// Characters that a shell reads as they stand, anywhere in a word.
pub open spec fn is_plain(c: char) -> bool {
    letter_or_digit(c) || c == '.' || c == '_' || c == '-' || c == '/'
}

/// Whether a text consists of plain characters.
pub open spec fn all_plain(s: Seq<char>) -> bool {
    forall|i: int| 0 <= i < s.len() ==> is_plain(#[trigger] s[i])
}

/// The text with every single quote written as `'\''`.
pub open spec fn break_quotes(s: Seq<char>) -> Seq<char>
    decreases s.len(),
{
    if s.len() == 0 {
        Seq::empty()
    } else if s.last() == '\'' {
        break_quotes(s.drop_last()) + seq!['\'', '\\', '\'', '\'']
    } else {
        break_quotes(s.drop_last()).push(s.last())
    }
}

/// The text as one word of a shell: itself where all of it is plain, and
/// otherwise inside single quotes.
pub open spec fn escape(s: Seq<char>) -> Seq<char> {
    if s.len() > 0 && all_plain(s) {
        s
    } else {
        seq!['\''] + break_quotes(s) + seq!['\'']
    }
}

fn plain(chars: &Vec<char>) -> (r: bool)
    ensures
        r == all_plain(chars@),
{
    let mut i: usize = 0;
    while i < chars.len()
        invariant
            i <= chars.len(),
            forall|j: int| 0 <= j < i ==> is_plain(#[trigger] chars@[j]),
        decreases chars.len() - i,
    {
        let c: char = chars[i];
        if !(alphanumeric(c) || c == '.' || c == '_' || c == '-' || c == '/') {
            return false;
        }
        i = i + 1;
    }
    true
}

/// One word of a shell that stands for the text.
pub fn shell_escape(s: &str) -> (r: String)
    ensures
        r@ == escape(s@),
{
    let chars: Vec<char> = chars_of(s);
    if chars.len() > 0 && plain(&chars) {
        return s.to_owned();
    }
    let mut r: String = String::new();
    r.push('\'');
    let mut i: usize = 0;
    while i < chars.len()
        invariant
            i <= chars.len(),
            r@ == seq!['\''] + break_quotes(chars@.take(i as int)),
        decreases chars.len() - i,
    {
        proof {
            assert(chars@.take(i + 1).drop_last() =~= chars@.take(i as int));
        }
        let c: char = chars[i];
        if c == '\'' {
            r.push('\'');
            r.push('\\');
            r.push('\'');
            r.push('\'');
        } else {
            r.push(c);
        }
        proof {
            assert(r@ =~= seq!['\''] + break_quotes(chars@.take(i + 1)));
        }
        i = i + 1;
    }
    proof {
        assert(chars@.take(i as int) =~= s@);
    }
    r.push('\'');
    r
}

/// Inside which quotes a reader of a line is.
pub enum Quotes {
    Outside,
    Single,
    Double,
}

/// How far a line was read: the words that are complete, the word that is being
/// read, the quotes around it, and whether a backslash came last.
pub struct Reader {
    pub words: Seq<Seq<char>>,
    pub word: Seq<char>,
    pub quotes: Quotes,
    pub escaping: bool,
}

/// A reader that has read nothing.
pub open spec fn fresh() -> Reader {
    Reader { words: Seq::empty(), word: Seq::empty(), quotes: Quotes::Outside, escaping: false }
}

/// The reader when the word that it was reading has ended. A word without
/// characters is no word.
pub open spec fn end_word(r: Reader) -> Reader {
    if r.word.len() > 0 {
        Reader { words: r.words.push(r.word), word: Seq::empty(), ..r }
    } else {
        r
    }
}

/// The reader after one more character. A backslash takes the next character as
/// it stands, except inside single quotes; each kind of quotes hides the other;
/// spaces and tabs outside of quotes end a word.
pub open spec fn read(r: Reader, c: char) -> Reader {
    if r.escaping {
        Reader { word: r.word.push(c), escaping: false, ..r }
    } else if c == '\\' && !(r.quotes is Single) {
        Reader { escaping: true, ..r }
    } else if c == '\'' && !(r.quotes is Double) {
        Reader {
            quotes: if r.quotes is Single {
                Quotes::Outside
            } else {
                Quotes::Single
            },
            ..r
        }
    } else if c == '"' && !(r.quotes is Single) {
        Reader {
            quotes: if r.quotes is Double {
                Quotes::Outside
            } else {
                Quotes::Double
            },
            ..r
        }
    } else if (c == ' ' || c == '\t') && r.quotes is Outside {
        end_word(r)
    } else {
        Reader { word: r.word.push(c), ..r }
    }
}

/// The reader after the characters of `s`.
pub open spec fn read_all(r: Reader, s: Seq<char>) -> Reader
    decreases s.len(),
{
    if s.len() == 0 {
        r
    } else {
        read(read_all(r, s.drop_last()), s.last())
    }
}

/// The words of a line. Quotes that are never closed reach to its end.
pub open spec fn words_of(s: Seq<char>) -> Seq<Seq<char>> {
    end_word(read_all(fresh(), s)).words
}

/// The words of a line, with single and double quotes and backslashes read as a
/// shell reads them, and nothing else of a shell.
pub fn shlex_split(s: &str) -> (r: Vec<String>)
    ensures
        texts(r@) == words_of(s@),
{
    let chars: Vec<char> = chars_of(s);
    let mut args: Vec<String> = Vec::new();
    let mut current: String = String::new();
    let mut in_single: bool = false;
    let mut in_double: bool = false;
    let mut escape: bool = false;
    let mut i: usize = 0;
    proof {
        assert(texts(args@) =~= Seq::<Seq<char>>::empty());
        assert(chars@.take(0) =~= Seq::<char>::empty());
    }
    while i < chars.len()
        invariant
            i <= chars.len(),
            read_all(fresh(), chars@.take(i as int)) == (Reader {
                words: texts(args@),
                word: current@,
                quotes: if in_single {
                    Quotes::Single
                } else if in_double {
                    Quotes::Double
                } else {
                    Quotes::Outside
                },
                escaping: escape,
            }),
            !(in_single && in_double),
        decreases chars.len() - i,
    {
        proof {
            assert(chars@.take(i + 1).drop_last() =~= chars@.take(i as int));
        }
        let c: char = chars[i];
        if escape {
            current.push(c);
            escape = false;
        } else if c == '\\' && !in_single {
            escape = true;
        } else if c == '\'' && !in_double {
            in_single = !in_single;
        } else if c == '"' && !in_single {
            in_double = !in_double;
        } else if (c == ' ' || c == '\t') && !in_single && !in_double {
            if !current.as_str().is_empty() {
                let ghost before = texts(args@);
                let ghost word = current@;
                args.push(current);
                current = String::new();
                proof {
                    assert(texts(args@) =~= before.push(word));
                }
            }
        } else {
            current.push(c);
        }
        i = i + 1;
    }
    proof {
        assert(chars@.take(i as int) =~= s@);
    }
    if !current.as_str().is_empty() {
        let ghost before = texts(args@);
        let ghost word = current@;
        args.push(current);
        proof {
            assert(texts(args@) =~= before.push(word));
        }
    }
    args
}

/// The line that runs `binary` with each argument as one word.
pub open spec fn command_line(binary: Seq<char>, args: Seq<Seq<char>>) -> Seq<char> {
    if args.len() == 0 {
        binary
    } else {
        binary + " "@ + join(args.map_values(|a: Seq<char>| escape(a)), " "@)
    }
}

pub fn escaped_line(binary: &str, args: &Vec<String>) -> (r: String)
    ensures
        r@ == command_line(binary@, texts(args@)),
{
    if args.len() == 0 {
        return binary.to_owned();
    }
    let mut words: Vec<String> = Vec::new();
    let mut i: usize = 0;
    while i < args.len()
        invariant
            i <= args.len(),
            words.len() == i,
            forall|j: int| 0 <= j < i ==> (#[trigger] words@[j])@ == escape(args@[j]@),
        decreases args.len() - i,
    {
        words.push(shell_escape(&args[i]));
        i = i + 1;
    }
    proof {
        assert(texts(words@) =~= texts(args@).map_values(|a: Seq<char>| escape(a)));
    }
    binary.to_owned().concat(" ").concat(&joined(&words, " "))
}

/// The line that has a shell run `cmd` as root.
pub open spec fn root_line(cmd: Seq<char>) -> Seq<char> {
    "su -c "@ + escape(cmd)
}

pub fn su_line(cmd: &str) -> (r: String)
    ensures
        r@ == root_line(cmd@),
{
    "su -c ".to_owned().concat(&shell_escape(cmd))
}

pub proof fn lemma_read_all_concat(r: Reader, a: Seq<char>, b: Seq<char>)
    ensures
        read_all(r, a + b) == read_all(read_all(r, a), b),
    decreases b.len(),
{
    if b.len() == 0 {
        assert(a + b =~= a);
    } else {
        assert((a + b).drop_last() =~= a + b.drop_last());
        lemma_read_all_concat(r, a, b.drop_last());
    }
}

proof fn lemma_read_plain(r: Reader, s: Seq<char>)
    requires
        all_plain(s),
        r.quotes is Outside,
        !r.escaping,
    ensures
        read_all(r, s) == (Reader { word: r.word + s, ..r }),
    decreases s.len(),
{
    if s.len() == 0 {
        assert(r.word + s =~= r.word);
    } else {
        lemma_read_plain(r, s.drop_last());
        assert(is_plain(s[s.len() - 1]));
        assert(r.word + s =~= (r.word + s.drop_last()).push(s.last()));
    }
}

proof fn lemma_read_quoted(r: Reader, s: Seq<char>)
    requires
        r.quotes is Single,
        !r.escaping,
    ensures
        read_all(r, break_quotes(s)) == (Reader { word: r.word + s, ..r }),
    decreases s.len(),
{
    if s.len() == 0 {
        assert(r.word + s =~= r.word);
    } else {
        let before = break_quotes(s.drop_last());
        lemma_read_quoted(r, s.drop_last());
        let mid = read_all(r, before);
        assert(r.word + s =~= mid.word.push(s.last()));
        if s.last() == '\'' {
            let tail = seq!['\'', '\\', '\'', '\''];
            lemma_read_all_concat(r, before, tail);
            assert(tail.drop_last() =~= seq!['\'', '\\', '\'']);
            assert(tail.drop_last().drop_last() =~= seq!['\'', '\\']);
            assert(tail.drop_last().drop_last().drop_last() =~= seq!['\'']);
            assert(tail.drop_last().drop_last().drop_last().drop_last() =~= Seq::<char>::empty());
            reveal_with_fuel(read_all, 5);
        } else {
            assert(break_quotes(s).drop_last() =~= before);
        }
    }
}

/// Outside of quotes an escaped text adds itself to the word that is being read,
/// and does nothing else: none of its characters ends the word, opens quotes or
/// escapes what follows.
pub proof fn escaped_text_stays_in_its_word(r: Reader, s: Seq<char>)
    requires
        r.quotes is Outside,
        !r.escaping,
    ensures
        read_all(r, escape(s)) == (Reader { word: r.word + s, ..r }),
{
    if s.len() > 0 && all_plain(s) {
        lemma_read_plain(r, s);
    } else {
        let mark = seq!['\''];
        assert(mark.drop_last() =~= Seq::<char>::empty());
        reveal_with_fuel(read_all, 2);
        let open = read_all(r, mark);
        assert(open == Reader { quotes: Quotes::Single, ..r });
        lemma_read_all_concat(r, mark, break_quotes(s));
        lemma_read_quoted(open, s);
        lemma_read_all_concat(r, mark + break_quotes(s), mark);
    }
}

/// A text that is not empty, escaped, is read back as exactly one word: the
/// text itself.
pub proof fn escaped_text_is_one_word(s: Seq<char>)
    requires
        s.len() > 0,
    ensures
        words_of(escape(s)) == seq![s],
{
    escaped_text_stays_in_its_word(fresh(), s);
    assert(Seq::<char>::empty() + s =~= s);
    assert(words_of(escape(s)) =~= seq![s]);
}

proof fn lemma_read_space(r: Reader)
    requires
        r.quotes is Outside,
        !r.escaping,
    ensures
        read_all(r, " "@) == end_word(r),
{
    reveal_strlit(" ");
    assert(" "@ =~= seq![' ']);
    assert(seq![' '].drop_last() =~= Seq::<char>::empty());
    reveal_with_fuel(read_all, 2);
}

proof fn lemma_read_joined(r: Reader, args: Seq<Seq<char>>)
    requires
        args.len() > 0,
        forall|i: int| 0 <= i < args.len() ==> (#[trigger] args[i]).len() > 0,
        r.quotes is Outside,
        !r.escaping,
        r.word.len() == 0,
    ensures
        read_all(r, join(args.map_values(|a: Seq<char>| escape(a)), " "@)) == (Reader {
            words: r.words + args.drop_last(),
            word: args.last(),
            ..r
        }),
    decreases args.len(),
{
    let f = |a: Seq<char>| escape(a);
    let words = args.map_values(f);
    let last = args.last();
    assert(words.last() == escape(last));
    assert(args[args.len() - 1].len() > 0);
    if args.len() == 1 {
        escaped_text_stays_in_its_word(r, last);
        assert(r.word + last =~= last);
        assert(r.words + args.drop_last() =~= r.words);
    } else {
        let init = args.drop_last();
        assert(words.drop_last() =~= init.map_values(f));
        assert forall|i: int| 0 <= i < init.len() implies (#[trigger] init[i]).len() > 0 by {
            assert(args[i].len() > 0);
        }
        lemma_read_joined(r, init);
        let before = join(init.map_values(f), " "@);
        let r1 = read_all(r, before);
        assert(args[args.len() - 2].len() > 0);
        lemma_read_all_concat(r, before, " "@);
        lemma_read_space(r1);
        let r2 = end_word(r1);
        assert(r2.words =~= r.words + init);
        lemma_read_all_concat(r, before + " "@, escape(last));
        escaped_text_stays_in_its_word(r2, last);
        assert(r2.word + last =~= last);
    }
}

/// A command line is read back as the binary followed by exactly the arguments
/// it was made of, where the binary is a plain word and no argument is empty: no
/// character of an argument is taken for anything else.
pub proof fn command_line_keeps_every_argument(binary: Seq<char>, args: Seq<Seq<char>>)
    requires
        binary.len() > 0,
        all_plain(binary),
        forall|i: int| 0 <= i < args.len() ==> (#[trigger] args[i]).len() > 0,
    ensures
        words_of(command_line(binary, args)) == seq![binary] + args,
{
    lemma_read_plain(fresh(), binary);
    assert(Seq::<char>::empty() + binary =~= binary);
    let r1 = read_all(fresh(), binary);
    if args.len() == 0 {
        assert(words_of(command_line(binary, args)) =~= seq![binary] + args);
    } else {
        lemma_read_all_concat(fresh(), binary, " "@);
        lemma_read_space(r1);
        let r2 = end_word(r1);
        let rest = join(args.map_values(|a: Seq<char>| escape(a)), " "@);
        lemma_read_all_concat(fresh(), binary + " "@, rest);
        lemma_read_joined(r2, args);
        assert(args[args.len() - 1].len() > 0);
        assert(words_of(command_line(binary, args)) =~= seq![binary] + args);
    }
}

/// The line that runs a command as root hands `su` the command as one word.
pub proof fn root_line_hands_over_the_whole_command(cmd: Seq<char>)
    requires
        cmd.len() > 0,
    ensures
        words_of(root_line(cmd)) == seq!["su"@, "-c"@, cmd],
{
    reveal_strlit("su");
    reveal_strlit("-c");
    reveal_strlit(" ");
    reveal_strlit("su -c ");
    let su = "su"@;
    let flag = "-c"@;
    let space = " "@;
    assert("su -c "@ =~= su + space + flag + space);
    assert(all_plain(su));
    assert(all_plain(flag));
    lemma_read_plain(fresh(), su);
    assert(Seq::<char>::empty() + su =~= su);
    let r1 = read_all(fresh(), su);
    lemma_read_all_concat(fresh(), su, space);
    lemma_read_space(r1);
    let r2 = end_word(r1);
    lemma_read_all_concat(fresh(), su + space, flag);
    lemma_read_plain(r2, flag);
    assert(r2.word + flag =~= flag);
    let r3 = read_all(r2, flag);
    lemma_read_all_concat(fresh(), su + space + flag, space);
    lemma_read_space(r3);
    let r4 = end_word(r3);
    lemma_read_all_concat(fresh(), "su -c "@, escape(cmd));
    escaped_text_stays_in_its_word(r4, cmd);
    assert(r4.word + cmd =~= cmd);
    assert(words_of(root_line(cmd)) =~= seq![su, flag, cmd]);
}

proof fn lemma_words_are_not_empty(s: Seq<char>, i: int)
    requires
        0 <= i < read_all(fresh(), s).words.len(),
    ensures
        read_all(fresh(), s).words[i].len() > 0,
    decreases s.len(),
{
    if s.len() > 0 {
        let r = read_all(fresh(), s.drop_last());
        if i < r.words.len() {
            lemma_words_are_not_empty(s.drop_last(), i);
        }
    }
}

/// No word of a line is empty.
pub proof fn words_are_not_empty(s: Seq<char>, i: int)
    requires
        0 <= i < words_of(s).len(),
    ensures
        words_of(s)[i].len() > 0,
{
    if i < read_all(fresh(), s).words.len() {
        lemma_words_are_not_empty(s, i);
    }
}

/// Characters that have no meaning of their own to a reader of words.
pub open spec fn is_ordinary(c: char) -> bool {
    c != '\\' && c != '\'' && c != '"' && c != ' ' && c != '\t'
}

proof fn lemma_read_ordinary(r: Reader, s: Seq<char>)
    requires
        forall|i: int| 0 <= i < s.len() ==> is_ordinary(#[trigger] s[i]),
        r.quotes is Outside,
        !r.escaping,
    ensures
        read_all(r, s) == (Reader { word: r.word + s, ..r }),
    decreases s.len(),
{
    if s.len() == 0 {
        assert(r.word + s =~= r.word);
    } else {
        lemma_read_ordinary(r, s.drop_last());
        assert(is_ordinary(s[s.len() - 1]));
        assert(r.word + s =~= (r.word + s.drop_last()).push(s.last()));
    }
}

/// A word without blanks, quotes and backslashes, and a space after it, are read
/// as one more word.
pub proof fn lemma_next_word(r: Reader, s: Seq<char>)
    requires
        s.len() > 0,
        forall|i: int|
            0 <= i < s.len() ==> (#[trigger] s[i]) != '\\' && s[i] != '\'' && s[i] != '"' && s[i]
                != ' ' && s[i] != '\t',
        r.quotes is Outside,
        !r.escaping,
        r.word.len() == 0,
    ensures
        read_all(r, s + " "@) == (Reader { words: r.words.push(s), ..r }),
{
    lemma_read_ordinary(r, s);
    lemma_read_all_concat(r, s, " "@);
    lemma_read_space(read_all(r, s));
    assert(r.word + s =~= s);
    assert(r.word =~= Seq::<char>::empty());
}

/// An escaped text that is not empty, and a space after it, are read as one more
/// word.
pub proof fn lemma_next_escaped_word(r: Reader, s: Seq<char>)
    requires
        s.len() > 0,
        r.quotes is Outside,
        !r.escaping,
        r.word.len() == 0,
    ensures
        read_all(r, escape(s) + " "@) == (Reader { words: r.words.push(s), ..r }),
{
    escaped_text_stays_in_its_word(r, s);
    lemma_read_all_concat(r, escape(s), " "@);
    lemma_read_space(read_all(r, escape(s)));
    assert(r.word + s =~= s);
    assert(r.word =~= Seq::<char>::empty());
}

// How a line is read, piece by piece

/// A piece of a line: characters without a meaning of their own, a text in single
/// or double quotes, a character behind a backslash, or a blank.
pub enum Piece {
    Bare(Seq<char>),
    Single(Seq<char>),
    Double(Seq<char>),
    Escaped(char),
    Blank(char),
}

/// Whether the text of a piece can stand in it.
pub open spec fn can_stand(p: Piece) -> bool {
    match p {
        Piece::Bare(s) => forall|i: int| 0 <= i < s.len() ==> is_ordinary(#[trigger] s[i]),
        Piece::Single(s) => !s.contains('\''),
        Piece::Double(s) => !s.contains('"') && !s.contains('\\'),
        Piece::Escaped(_) => true,
        Piece::Blank(c) => c == ' ' || c == '\t',
    }
}

/// How a piece is written.
pub open spec fn written(p: Piece) -> Seq<char> {
    match p {
        Piece::Bare(s) => s,
        Piece::Single(s) => seq!['\''] + s + seq!['\''],
        Piece::Double(s) => seq!['"'] + s + seq!['"'],
        Piece::Escaped(c) => seq!['\\', c],
        Piece::Blank(c) => seq![c],
    }
}

/// How the pieces are written, one after the other.
pub open spec fn written_all(pieces: Seq<Piece>) -> Seq<char>
    decreases pieces.len(),
{
    if pieces.len() == 0 {
        Seq::empty()
    } else {
        written_all(pieces.drop_last()) + written(pieces.last())
    }
}

/// What the pieces after the last blank say together.
pub open spec fn open_word(pieces: Seq<Piece>) -> Seq<char>
    decreases pieces.len(),
{
    if pieces.len() == 0 {
        Seq::empty()
    } else {
        let before = open_word(pieces.drop_last());
        match pieces.last() {
            Piece::Bare(s) => before + s,
            Piece::Single(s) => before + s,
            Piece::Double(s) => before + s,
            Piece::Escaped(c) => before.push(c),
            Piece::Blank(_) => Seq::empty(),
        }
    }
}

/// What the pieces between blanks say, where they say anything.
pub open spec fn closed_words(pieces: Seq<Piece>) -> Seq<Seq<char>>
    decreases pieces.len(),
{
    if pieces.len() == 0 {
        Seq::empty()
    } else {
        let before = closed_words(pieces.drop_last());
        let word = open_word(pieces.drop_last());
        if pieces.last() is Blank && word.len() > 0 {
            before.push(word)
        } else {
            before
        }
    }
}

proof fn lemma_read_in_quotes(r: Reader, s: Seq<char>)
    requires
        !r.escaping,
        r.quotes is Single && !s.contains('\'') || r.quotes is Double && !s.contains('"')
            && !s.contains('\\'),
    ensures
        read_all(r, s) == (Reader { word: r.word + s, ..r }),
    decreases s.len(),
{
    if s.len() == 0 {
        assert(r.word + s =~= r.word);
    } else {
        let init = s.drop_last();
        assert(forall|c: char| init.contains(c) ==> s.contains(c)) by {
            assert forall|c: char| init.contains(c) implies s.contains(c) by {
                let i = choose|i: int| 0 <= i < init.len() && init[i] == c;
                assert(s[i] == c);
            }
        }
        lemma_read_in_quotes(r, init);
        assert(s.contains(s[s.len() - 1]));
        assert(r.word + s =~= (r.word + init).push(s.last()));
    }
}

proof fn lemma_read_one(r: Reader, c: char)
    ensures
        read_all(r, seq![c]) == read(r, c),
{
    assert(seq![c].drop_last() =~= Seq::<char>::empty());
    reveal_with_fuel(read_all, 2);
}

proof fn lemma_read_piece(r: Reader, p: Piece)
    requires
        can_stand(p),
        r.quotes is Outside,
        !r.escaping,
    ensures
        read_all(r, written(p)) == match p {
            Piece::Bare(s) => Reader { word: r.word + s, ..r },
            Piece::Single(s) => Reader { word: r.word + s, ..r },
            Piece::Double(s) => Reader { word: r.word + s, ..r },
            Piece::Escaped(c) => Reader { word: r.word.push(c), ..r },
            Piece::Blank(_) => end_word(r),
        },
{
    match p {
        Piece::Bare(s) => {
            lemma_read_ordinary(r, s);
        },
        Piece::Single(s) => {
            let mark = seq!['\''];
            lemma_read_one(r, '\'');
            let inside = Reader { quotes: Quotes::Single, ..r };
            lemma_read_all_concat(r, mark, s);
            lemma_read_in_quotes(inside, s);
            lemma_read_all_concat(r, mark + s, mark);
            lemma_read_one(Reader { word: r.word + s, ..inside }, '\'');
        },
        Piece::Double(s) => {
            let mark = seq!['"'];
            lemma_read_one(r, '"');
            let inside = Reader { quotes: Quotes::Double, ..r };
            lemma_read_all_concat(r, mark, s);
            lemma_read_in_quotes(inside, s);
            lemma_read_all_concat(r, mark + s, mark);
            lemma_read_one(Reader { word: r.word + s, ..inside }, '"');
        },
        Piece::Escaped(c) => {
            assert(written(p) =~= seq!['\\'] + seq![c]);
            lemma_read_one(r, '\\');
            lemma_read_all_concat(r, seq!['\\'], seq![c]);
            lemma_read_one(Reader { escaping: true, ..r }, c);
        },
        Piece::Blank(c) => {
            lemma_read_one(r, c);
        },
    }
}

proof fn lemma_read_pieces(pieces: Seq<Piece>)
    requires
        forall|i: int| 0 <= i < pieces.len() ==> can_stand(#[trigger] pieces[i]),
    ensures
        read_all(fresh(), written_all(pieces)) == (Reader {
            words: closed_words(pieces),
            word: open_word(pieces),
            quotes: Quotes::Outside,
            escaping: false,
        }),
    decreases pieces.len(),
{
    if pieces.len() > 0 {
        let init = pieces.drop_last();
        assert(forall|i: int| 0 <= i < init.len() ==> init[i] == pieces[i]);
        lemma_read_pieces(init);
        assert(can_stand(pieces[pieces.len() - 1]));
        lemma_read_piece(read_all(fresh(), written_all(init)), pieces.last());
        lemma_read_all_concat(fresh(), written_all(init), written(pieces.last()));
        assert(open_word(init).len() == 0 ==> open_word(init) =~= Seq::<char>::empty());
    }
}

/// A word is what the pieces between two blanks say together: neither quotes nor
/// a backslash end it or begin it, and blanks inside of quotes or behind a
/// backslash belong to it.
pub proof fn words_are_what_stands_between_blanks(pieces: Seq<Piece>)
    requires
        forall|i: int| 0 <= i < pieces.len() ==> can_stand(#[trigger] pieces[i]),
    ensures
        words_of(written_all(pieces)) == closed_words(pieces) + if open_word(pieces).len() > 0 {
            seq![open_word(pieces)]
        } else {
            Seq::empty()
        },
{
    lemma_read_pieces(pieces);
    assert(words_of(written_all(pieces)) =~= closed_words(pieces) + if open_word(pieces).len() > 0 {
        seq![open_word(pieces)]
    } else {
        Seq::empty()
    });
}

/// A text in double quotes makes one word with what stands directly before and
/// after it.
pub proof fn double_quotes_join_their_neighbours(p: Seq<char>, a: Seq<char>, q: Seq<char>)
    requires
        forall|i: int| 0 <= i < p.len() ==> is_ordinary(#[trigger] p[i]),
        forall|i: int| 0 <= i < q.len() ==> is_ordinary(#[trigger] q[i]),
        !a.contains('"'),
        !a.contains('\\'),
        p.len() + a.len() + q.len() > 0,
    ensures
        words_of(p + (seq!['"'] + a + seq!['"']) + q) == seq![p + a + q],
{
    let r = read_all(fresh(), p);
    lemma_read_piece(fresh(), Piece::Bare(p));
    lemma_read_piece(r, Piece::Double(a));
    let quoted = seq!['"'] + a + seq!['"'];
    lemma_read_all_concat(fresh(), p, quoted);
    lemma_read_all_concat(fresh(), p + quoted, q);
    lemma_read_piece(read_all(r, quoted), Piece::Bare(q));
    assert(Seq::<char>::empty() + p + a + q =~= p + a + q);
    assert(words_of(p + quoted + q) =~= seq![p + a + q]);
}

/// A text in single quotes makes one word with what stands directly before and
/// after it; backslashes and double quotes in it stand for themselves.
pub proof fn single_quotes_join_their_neighbours(p: Seq<char>, a: Seq<char>, q: Seq<char>)
    requires
        forall|i: int| 0 <= i < p.len() ==> is_ordinary(#[trigger] p[i]),
        forall|i: int| 0 <= i < q.len() ==> is_ordinary(#[trigger] q[i]),
        !a.contains('\''),
        p.len() + a.len() + q.len() > 0,
    ensures
        words_of(p + (seq!['\''] + a + seq!['\'']) + q) == seq![p + a + q],
{
    let r = read_all(fresh(), p);
    lemma_read_piece(fresh(), Piece::Bare(p));
    lemma_read_piece(r, Piece::Single(a));
    let quoted = seq!['\''] + a + seq!['\''];
    lemma_read_all_concat(fresh(), p, quoted);
    lemma_read_all_concat(fresh(), p + quoted, q);
    lemma_read_piece(read_all(r, quoted), Piece::Bare(q));
    assert(Seq::<char>::empty() + p + a + q =~= p + a + q);
    assert(words_of(p + quoted + q) =~= seq![p + a + q]);
}

/// A character behind a backslash belongs to the word, whatever it is.
pub proof fn backslash_keeps_the_next_character(p: Seq<char>, c: char, q: Seq<char>)
    requires
        forall|i: int| 0 <= i < p.len() ==> is_ordinary(#[trigger] p[i]),
        forall|i: int| 0 <= i < q.len() ==> is_ordinary(#[trigger] q[i]),
    ensures
        words_of(p + seq!['\\', c] + q) == seq![p + seq![c] + q],
{
    let r = read_all(fresh(), p);
    lemma_read_piece(fresh(), Piece::Bare(p));
    lemma_read_piece(r, Piece::Escaped(c));
    lemma_read_all_concat(fresh(), p, seq!['\\', c]);
    lemma_read_all_concat(fresh(), p + seq!['\\', c], q);
    lemma_read_piece(read_all(r, seq!['\\', c]), Piece::Bare(q));
    assert((Seq::<char>::empty() + p).push(c) + q =~= p + seq![c] + q);
    assert(words_of(p + seq!['\\', c] + q) =~= seq![p + seq![c] + q]);
}

/// Inside of double quotes, too, a character behind a backslash stands for
/// itself.
pub proof fn backslash_works_inside_of_double_quotes(a: Seq<char>, c: char, b: Seq<char>)
    requires
        !a.contains('"') && !a.contains('\\'),
        !b.contains('"') && !b.contains('\\'),
    ensures
        words_of(seq!['"'] + a + seq!['\\', c] + b + seq!['"']) == seq![a + seq![c] + b],
{
    let r0 = Reader { quotes: Quotes::Double, ..fresh() };
    lemma_read_one(fresh(), '"');
    lemma_read_in_quotes(r0, a);
    let r1 = Reader { word: r0.word + a, ..r0 };
    lemma_read_one(r1, '\\');
    let r2 = Reader { escaping: true, ..r1 };
    lemma_read_one(r2, c);
    let r3 = Reader { word: r1.word.push(c), ..r1 };
    lemma_read_in_quotes(r3, b);
    let r4 = Reader { word: r3.word + b, ..r3 };
    lemma_read_one(r4, '"');
    let mark = seq!['"'];
    let two = seq!['\\', c];
    assert(two =~= seq!['\\'] + seq![c]);
    lemma_read_all_concat(r1, seq!['\\'], seq![c]);
    lemma_read_all_concat(fresh(), mark, a);
    lemma_read_all_concat(fresh(), mark + a, two);
    lemma_read_all_concat(fresh(), mark + a + two, b);
    lemma_read_all_concat(fresh(), mark + a + two + b, mark);
    assert((Seq::<char>::empty() + a).push(c) + b =~= a + seq![c] + b);
    assert(words_of(mark + a + two + b + mark) =~= seq![a + seq![c] + b]);
}

/// Quotes that are never closed reach to the end of the line.
pub proof fn open_quotes_reach_to_the_end(a: Seq<char>)
    requires
        a.len() > 0,
    ensures
        !a.contains('\'') ==> words_of(seq!['\''] + a) == seq![a],
        !a.contains('"') && !a.contains('\\') ==> words_of(seq!['"'] + a) == seq![a],
{
    assert(Seq::<char>::empty() + a =~= a);
    if !a.contains('\'') {
        lemma_read_one(fresh(), '\'');
        lemma_read_all_concat(fresh(), seq!['\''], a);
        lemma_read_in_quotes(Reader { quotes: Quotes::Single, ..fresh() }, a);
        assert(words_of(seq!['\''] + a) =~= seq![a]);
    }
    if !a.contains('"') && !a.contains('\\') {
        lemma_read_one(fresh(), '"');
        lemma_read_all_concat(fresh(), seq!['"'], a);
        lemma_read_in_quotes(Reader { quotes: Quotes::Double, ..fresh() }, a);
        assert(words_of(seq!['"'] + a) =~= seq![a]);
    }
}

/// A backslash at the end of a line says nothing.
pub proof fn last_backslash_says_nothing(p: Seq<char>)
    requires
        forall|i: int| 0 <= i < p.len() ==> is_ordinary(#[trigger] p[i]),
    ensures
        words_of(p + seq!['\\']) == words_of(p),
{
    lemma_read_piece(fresh(), Piece::Bare(p));
    lemma_read_one(read_all(fresh(), p), '\\');
    lemma_read_all_concat(fresh(), p, seq!['\\']);
}

/// A blank outside of quotes parts the words before it from those after it.
pub proof fn blank_parts_words(before: Seq<Piece>, blank: char, after: Seq<char>)
    requires
        forall|i: int| 0 <= i < before.len() ==> can_stand(#[trigger] before[i]),
        blank == ' ' || blank == '\t',
    ensures
        words_of(written_all(before) + seq![blank] + after) == words_of(written_all(before))
            + words_of(after),
{
    lemma_read_pieces(before);
    let line = written_all(before);
    let r = read_all(fresh(), line);
    lemma_read_one(r, blank);
    lemma_read_all_concat(fresh(), line, seq![blank]);
    lemma_read_all_concat(fresh(), line + seq![blank], after);
    let start = end_word(r);
    assert(start.word =~= Seq::<char>::empty());
    lemma_words_add_up(start.words, after);
    assert(words_of(line) == start.words);
    assert(words_of(line + seq![blank] + after) =~= words_of(line) + words_of(after));
}

proof fn lemma_words_add_up(words: Seq<Seq<char>>, s: Seq<char>)
    ensures
        read_all(Reader { words, ..fresh() }, s) == (Reader {
            words: words + read_all(fresh(), s).words,
            ..read_all(fresh(), s)
        }),
    decreases s.len(),
{
    if s.len() == 0 {
        assert(words + Seq::<Seq<char>>::empty() =~= words);
    } else {
        lemma_words_add_up(words, s.drop_last());
        let r = read_all(fresh(), s.drop_last());
        assert((words + r.words).push(r.word) =~= words + r.words.push(r.word));
    }
}

// How a text is escaped

/// A text with nothing but plain characters is written as it stands, and any
/// other text without a single quote between single quotes.
pub proof fn escaping_puts_single_quotes_around(s: Seq<char>)
    ensures
        s.len() > 0 && all_plain(s) ==> escape(s) == s,
        !(s.len() > 0 && all_plain(s)) && !s.contains('\'') ==> escape(s) == seq!['\''] + s + seq![
            '\'',
        ],
{
    if !s.contains('\'') {
        lemma_nothing_to_break(s);
    }
}

proof fn lemma_nothing_to_break(s: Seq<char>)
    requires
        !s.contains('\''),
    ensures
        break_quotes(s) == s,
    decreases s.len(),
{
    if s.len() > 0 {
        let init = s.drop_last();
        if init.contains('\'') {
            let i = choose|i: int| 0 <= i < init.len() && init[i] == '\'';
            assert(s[i] == '\'');
        }
        lemma_nothing_to_break(init);
        assert(s.contains(s[s.len() - 1]));
        assert(init.push(s.last()) =~= s);
    }
}

/// A single quote in a text ends the quotes, stands behind a backslash, and opens
/// them again; what stands before and after it is escaped as it would be alone.
pub proof fn single_quote_is_escaped_by_itself(a: Seq<char>, b: Seq<char>)
    ensures
        escape(a + seq!['\''] + b) == seq!['\''] + break_quotes(a) + seq!['\'', '\\', '\'', '\'']
            + break_quotes(b) + seq!['\''],
        !a.contains('\'') ==> break_quotes(a) == a,
        !b.contains('\'') ==> break_quotes(b) == b,
{
    let s = a + seq!['\''] + b;
    assert(s[a.len() as int] == '\'');
    assert(!is_plain(s[a.len() as int]));
    lemma_break_quotes_concat(a, seq!['\'']);
    lemma_break_quotes_concat(a + seq!['\''], b);
    assert(seq!['\''].drop_last() =~= Seq::<char>::empty());
    reveal_with_fuel(break_quotes, 2);
    assert(break_quotes(seq!['\'']) =~= seq!['\'', '\\', '\'', '\'']);
    assert(escape(s) =~= seq!['\''] + break_quotes(a) + seq!['\'', '\\', '\'', '\'']
        + break_quotes(b) + seq!['\'']);
    if !a.contains('\'') {
        lemma_nothing_to_break(a);
    }
    if !b.contains('\'') {
        lemma_nothing_to_break(b);
    }
}

proof fn lemma_break_quotes_concat(a: Seq<char>, b: Seq<char>)
    ensures
        break_quotes(a + b) == break_quotes(a) + break_quotes(b),
    decreases b.len(),
{
    if b.len() == 0 {
        assert(a + b =~= a);
        assert(break_quotes(a) + break_quotes(b) =~= break_quotes(a));
    } else {
        assert((a + b).drop_last() =~= a + b.drop_last());
        lemma_break_quotes_concat(a, b.drop_last());
        assert(break_quotes(a + b) =~= break_quotes(a) + break_quotes(b));
    }
}

/// A command line begins with the program, and each argument adds a blank and the
/// argument escaped.
pub proof fn command_line_grows_by_one_word(
    binary: Seq<char>,
    args: Seq<Seq<char>>,
    arg: Seq<char>,
)
    ensures
        command_line(binary, Seq::empty()) == binary,
        command_line(binary, args.push(arg)) == command_line(binary, args) + seq![' '] + escape(arg),
{
    let f = |a: Seq<char>| escape(a);
    let more = args.push(arg).map_values(f);
    reveal_strlit(" ");
    assert(" "@ =~= seq![' ']);
    assert(more.drop_last() =~= args.map_values(f));
    assert(more.last() == escape(arg));
    if args.len() == 0 {
        assert(more =~= seq![escape(arg)]);
    }
    assert(command_line(binary, args.push(arg)) =~= command_line(binary, args) + seq![' '] + escape(
        arg,
    ));
}

/// The plain characters: the letters and digits of ASCII, and the dot, the
/// underscore, the hyphen and the slash; no other character of ASCII is one.
pub proof fn plain_characters_of_ascii(c: char)
    requires
        (c as u32) < 128,
    ensures
        is_plain(c) <==> ('a' <= c <= 'z' || 'A' <= c <= 'Z' || '0' <= c <= '9' || c == '.' || c
            == '_' || c == '-' || c == '/'),
{
}

/// Words that are escaped and joined by spaces are read back as those words.
pub proof fn escaped_words_are_read_back(words: Seq<Seq<char>>)
    requires
        forall|i: int| 0 <= i < words.len() ==> (#[trigger] words[i]).len() > 0,
    ensures
        words_of(join(words.map_values(|w: Seq<char>| escape(w)), " "@)) == words,
{
    let line = join(words.map_values(|w: Seq<char>| escape(w)), " "@);
    if words.len() == 0 {
        assert(line =~= Seq::<char>::empty());
        assert(words_of(line) =~= words);
    } else {
        lemma_read_joined(fresh(), words);
        assert(words[words.len() - 1].len() > 0);
        assert(words_of(line) =~= words);
    }
}

/// The line that runs a command as root is the command line of `su` with the command
/// as its second argument, whatever the command is.
pub proof fn root_line_is_a_command_line_of_su(cmd: Seq<char>)
    ensures
        root_line(cmd) == command_line("su"@, seq!["-c"@, cmd]),
{
    reveal_strlit("su");
    reveal_strlit("-c");
    reveal_strlit(" ");
    reveal_strlit("su -c ");
    let args = seq!["-c"@, cmd];
    let escaped = args.map_values(|a: Seq<char>| escape(a));
    assert(all_plain("-c"@)) by {
        assert forall|i: int| 0 <= i < "-c"@.len() implies is_plain(#[trigger] "-c"@[i]) by {
            assert("-c"@[0] == '-' && "-c"@[1] == 'c');
        }
    }
    assert(escaped =~= seq!["-c"@, escape(cmd)]);
    reveal_with_fuel(join, 2);
    assert(escaped.drop_last() =~= seq!["-c"@]);
    assert(join(escaped, " "@) == "-c"@ + " "@ + escape(cmd));
    assert("su -c "@ =~= "su"@ + " "@ + "-c"@ + " "@);
    assert(root_line(cmd) =~= command_line("su"@, args));
}

} // verus!
