//! Reading a command line: words split on spaces, single and double quotes,
//! `$NAME` and `${NAME}` expansion, and `~` for the home directory.

use vstd::prelude::*;
use crate::text::{alphanumeric, opt_view, push_char, views};

verus! {

/// A command line read into its command name and arguments.
#[derive(Debug)]
pub struct Cmd {
    /// The command name, empty for a blank line.
    pub command: String,
    /// The arguments after the command name.
    pub args: Vec<String>,
}

/// The variables of an environment as pairs of name and value.
pub open spec fn env_view(env: Seq<(String, String)>) -> Seq<(Seq<char>, Seq<char>)> {
    env.map_values(|p: (String, String)| (p.0@, p.1@))
}

/// The value of the first variable named `name`, if any.
pub open spec fn env_lookup(env: Seq<(Seq<char>, Seq<char>)>, name: Seq<char>) -> Option<Seq<char>>
    decreases env.len(),
{
    if env.len() == 0 {
        None
    } else if env[0].0 == name {
        Some(env[0].1)
    } else {
        env_lookup(env.drop_first(), name)
    }
}

/// The length of the name in `${name}`: up to the first `}` or the end.
pub open spec fn braced_len(s: Seq<char>) -> nat
    decreases s.len(),
{
    if s.len() == 0 || s[0] == '}' {
        0
    } else {
        1 + braced_len(s.drop_first())
    }
}

/// Whether a character may stand in a bare `$name`.
pub open spec fn name_char(c: char) -> bool {
    alphanumeric(c) || c == '_'
}

/// The length of the name in a bare `$name`: its letters, digits and underscores.
pub open spec fn bare_len(s: Seq<char>) -> nat
    decreases s.len(),
{
    if s.len() == 0 || !name_char(s[0]) {
        0
    } else {
        1 + bare_len(s.drop_first())
    }
}

/// The state of reading a line: the words so far, the word being read, and
/// whether a single or a double quote is open.
pub struct Lexed {
    pub words: Seq<Seq<char>>,
    pub current: Seq<char>,
    pub single: bool,
    pub double: bool,
}

/// The value of a variable added to the word being read (nothing where it is not set).
pub open spec fn with_value(st: Lexed, value: Option<Seq<char>>) -> Lexed {
    match value {
        Some(v) => Lexed { current: st.current + v, ..st },
        None => st,
    }
}

/// The state after reading `s` from state `st`.
pub open spec fn lex(s: Seq<char>, env: Seq<(Seq<char>, Seq<char>)>, st: Lexed) -> Lexed
    decreases s.len(),
{
    if s.len() == 0 {
        st
    } else {
        let c = s[0];
        let rest = s.drop_first();
        if c == '\'' && !st.double {
            lex(rest, env, Lexed { single: !st.single, ..st })
        } else if c == '"' && !st.single {
            lex(rest, env, Lexed { double: !st.double, ..st })
        } else if c == ' ' && !st.single && !st.double {
            if st.current.len() > 0 {
                lex(rest, env, Lexed { words: st.words.push(st.current), current: seq![], ..st })
            } else {
                lex(rest, env, st)
            }
        } else if c == '$' && !st.single {
            if rest.len() > 0 && rest[0] == '{' {
                let body = rest.drop_first();
                let k = if braced_len(body) <= body.len() {
                    braced_len(body) as int
                } else {
                    body.len() as int
                };
                let used = if k < body.len() {
                    k + 1
                } else {
                    k
                };
                lex(body.skip(used), env, with_value(st, env_lookup(env, body.take(k))))
            } else {
                let k = if bare_len(rest) <= rest.len() {
                    bare_len(rest) as int
                } else {
                    rest.len() as int
                };
                lex(rest.skip(k), env, with_value(st, env_lookup(env, rest.take(k))))
            }
        } else if c == '~' && st.current.len() == 0 && !st.single && !st.double {
            match env_lookup(env, seq!['H', 'O', 'M', 'E']) {
                Some(home) => lex(rest, env, Lexed { current: home, ..st }),
                None => lex(rest, env, Lexed { current: seq!['~'], ..st }),
            }
        } else {
            lex(rest, env, Lexed { current: st.current.push(c), ..st })
        }
    }
}

/// The words of a line, read in the environment `env`.
pub open spec fn line_words(s: Seq<char>, env: Seq<(Seq<char>, Seq<char>)>) -> Seq<Seq<char>> {
    let st = lex(s, env, Lexed { words: seq![], current: seq![], single: false, double: false });
    if st.current.len() > 0 {
        st.words.push(st.current)
    } else {
        st.words
    }
}

/// Whether a quote is left open at the end of the line.
pub open spec fn quote_open(s: Seq<char>, env: Seq<(Seq<char>, Seq<char>)>) -> bool {
    let st = lex(s, env, Lexed { words: seq![], current: seq![], single: false, double: false });
    st.single || st.double
}

proof fn lemma_braced_len(s: Seq<char>, i: int)
    requires
        0 <= i <= s.len(),
        forall|k: int| 0 <= k < i ==> s[k] != '}',
    ensures
        braced_len(s) == i + braced_len(s.skip(i)),
    decreases i,
{
    if i > 0 {
        assert(s.skip(1).skip(i - 1) =~= s.skip(i));
        assert(s.drop_first() =~= s.skip(1));
        lemma_braced_len(s.drop_first(), i - 1);
    } else {
        assert(s.skip(0) =~= s);
    }
}

proof fn lemma_bare_len(s: Seq<char>, i: int)
    requires
        0 <= i <= s.len(),
        forall|k: int| 0 <= k < i ==> name_char(s[k]),
    ensures
        bare_len(s) == i + bare_len(s.skip(i)),
    decreases i,
{
    if i > 0 {
        assert(s.skip(1).skip(i - 1) =~= s.skip(i));
        assert(s.drop_first() =~= s.skip(1));
        lemma_bare_len(s.drop_first(), i - 1);
    } else {
        assert(s.skip(0) =~= s);
    }
}

/// The value of the first variable named `name` in `env`.
fn lookup(env: &Vec<(String, String)>, name: &String) -> (r: Option<String>)
    ensures
        opt_view(r) == env_lookup(env_view(env@), name@),
{
    let mut i: usize = 0;
    assert(env_view(env@).skip(0) =~= env_view(env@));
    while i < env.len()
        invariant
            i <= env.len(),
            env_lookup(env_view(env@), name@) == env_lookup(env_view(env@).skip(i as int), name@),
        decreases env.len() - i,
    {
        assert(env_view(env@).skip(i as int).drop_first() =~= env_view(env@).skip(i + 1));
        if env[i].0 == *name {
            return Some(env[i].1.clone());
        }
        i = i + 1;
    }
    None
}

/// Appends an optional value to the word being read.
fn add_value(current: &mut String, value: Option<String>)
    ensures
        final(current)@ == match opt_view(value) {
            Some(v) => old(current)@ + v,
            None => old(current)@,
        },
{
    match value {
        Some(v) => current.append(v.as_str()),
        None => {},
    }
}

/// Splits a line into a command and its arguments, expanding variables from
/// `env` (name and value pairs) as it goes. `Err(1)` when a quote is left open.
pub fn split(input: &str, env: &Vec<(String, String)>) -> (r: Result<Cmd, u8>)
    ensures
        quote_open(input@, env_view(env@)) <==> r is Err,
        r matches Err(e) ==> e == 1,
        r matches Ok(cmd) ==> {
            let words = line_words(input@, env_view(env@));
            &&& cmd.command@ == (if words.len() > 0 {
                words[0]
            } else {
                seq![]
            })
            &&& views(cmd.args@) == (if words.len() > 0 {
                words.drop_first()
            } else {
                seq![]
            })
        },
{
    let ghost ev = env_view(env@);
    let cs = crate::text::chars_of(input);
    let n = cs.len();
    let mut words: Vec<String> = Vec::new();
    let mut current = String::new();
    let mut single = false;
    let mut double = false;
    let ghost init = Lexed { words: seq![], current: seq![], single: false, double: false };
    let mut i: usize = 0;
    assert(cs@.skip(0) =~= cs@);
    assert(views(words@) =~= seq![]);
    while i < n
        invariant
            n == cs.len(),
            cs@ == input@,
            ev == env_view(env@),
            i <= n,
            lex(input@, ev, init) == lex(
                cs@.skip(i as int),
                ev,
                Lexed { words: views(words@), current: current@, single, double },
            ),
        decreases n - i,
    {
        let ghost st = Lexed { words: views(words@), current: current@, single, double };
        let ghost s = cs@.skip(i as int);
        assert(s[0] == cs[i as int]);
        assert(s.drop_first() =~= cs@.skip(i + 1));
        let c = cs[i];
        if c == '\'' && !double {
            single = !single;
            i = i + 1;
        } else if c == '"' && !single {
            double = !double;
            i = i + 1;
        } else if c == ' ' && !single && !double {
            if current.as_str().unicode_len() > 0 {
                let ghost before = words@;
                words.push(current);
                assert(views(words@) =~= views(before).push(st.current));
                current = String::new();
            }
            i = i + 1;
        } else if c == '$' && !single {
            let ghost rest = s.drop_first();
            let mut name = String::new();
            if i + 1 < n && cs[i + 1] == '{' {
                let ghost body = rest.drop_first();
                assert(body =~= cs@.skip(i + 2));
                let mut j: usize = i + 2;
                while j < n && cs[j] != '}'
                    invariant
                        i + 2 <= j <= n == cs.len(),
                        body == cs@.skip(i + 2),
                        name@ == cs@.subrange(i + 2, j as int),
                        forall|k: int| i + 2 <= k < j ==> cs@[k] != '}',
                    decreases n - j,
                {
                    push_char(&mut name, cs[j]);
                    j = j + 1;
                    assert(name@ =~= cs@.subrange(i + 2, j as int));
                }
                proof {
                    let k = j - (i + 2);
                    lemma_braced_len(body, k);
                    assert(body.skip(k) =~= cs@.skip(j as int));
                    assert(body.take(k) =~= name@);
                }
                let value = lookup(env, &name);
                add_value(&mut current, value);
                if j < n {
                    assert(cs@.skip(j + 1) =~= body.skip(braced_len(body) as int + 1));
                    i = j + 1;
                } else {
                    assert(cs@.skip(j as int) =~= body.skip(braced_len(body) as int));
                    i = j;
                }
            } else {
                assert(rest =~= cs@.skip(i + 1));
                let mut j: usize = i + 1;
                while j < n && (crate::text::is_alphanumeric_char(cs[j]) || cs[j] == '_')
                    invariant
                        i + 1 <= j <= n == cs.len(),
                        rest == cs@.skip(i + 1),
                        name@ == cs@.subrange(i + 1, j as int),
                        forall|k: int| i + 1 <= k < j ==> name_char(cs@[k]),
                    decreases n - j,
                {
                    push_char(&mut name, cs[j]);
                    j = j + 1;
                    assert(name@ =~= cs@.subrange(i + 1, j as int));
                }
                proof {
                    let k = j - (i + 1);
                    lemma_bare_len(rest, k);
                    assert(rest.skip(k) =~= cs@.skip(j as int));
                    assert(rest.take(k) =~= name@);
                }
                let value = lookup(env, &name);
                add_value(&mut current, value);
                i = j;
            }
        } else if c == '~' && current.as_str().unicode_len() == 0 && !single && !double {
            let mut home_name = String::new();
            push_char(&mut home_name, 'H');
            push_char(&mut home_name, 'O');
            push_char(&mut home_name, 'M');
            push_char(&mut home_name, 'E');
            assert(home_name@ =~= seq!['H', 'O', 'M', 'E']);
            match lookup(env, &home_name) {
                Some(home) => {
                    current = home;
                },
                None => {
                    push_char(&mut current, '~');
                    assert(current@ =~= seq!['~']);
                },
            }
            i = i + 1;
        } else {
            push_char(&mut current, c);
            i = i + 1;
        }
    }
    assert(cs@.skip(n as int) =~= Seq::<char>::empty());
    if current.as_str().unicode_len() > 0 {
        let ghost before = words@;
        words.push(current);
        assert(views(words@) =~= views(before).push(words@.last()@));
    }
    if single || double {
        return Err(1);
    }
    let ghost all = views(words@);
    if words.len() == 0 {
        return Ok(Cmd { command: String::new(), args: Vec::new() });
    }
    let command = words.remove(0);
    assert(views(words@) =~= all.drop_first());
    Ok(Cmd { command, args: words })
}

/// What regex makes of `text` when every match of `pattern` is replaced by
/// nothing; `None` where regex refuses the pattern.
pub uninterp spec fn regex_deleted(pattern: Seq<char>, text: Seq<char>) -> Option<Seq<char>>;

/// Relies on regex's `Regex::new` to compile the pattern (`None` where it is
/// refused) and `Regex::replace_all` to replace every non-overlapping match by
/// nothing.
#[verifier::external_body]
fn delete_matches(pattern: &str, text: &str) -> (r: Option<String>)
    ensures
        opt_view(r) == regex_deleted(pattern@, text@),
{
    let re = regex::Regex::new(pattern).ok()?;
    Some(re.replace_all(text, "").into_owned())
}

/// The escape sequences that arrow keys put into a line: ESC `[` and one of `A` to `D`.
pub const CURSOR_KEYS: &'static str = "\\x1B\\[[A-D]";

/// The line without the escape sequences of the arrow keys.
pub fn clean_input(input: &str) -> (r: String)
    ensures
        r@ == match regex_deleted(CURSOR_KEYS@, input@) {
            Some(t) => t,
            None => input@,
        },
{
    match delete_matches(CURSOR_KEYS, input) {
        Some(t) => t,
        None => input.to_owned(),
    }
}

} // verus!
