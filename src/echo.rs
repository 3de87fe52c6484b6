//! The text that `echo` prints: its words, with backslash escapes read.

use vstd::prelude::*;

verus! {

/// The state of reading `echo`'s line: the words so far, the word being read,
/// and the quote character that is open, if any.
pub struct EchoLexed {
    pub words: Seq<Seq<char>>,
    pub current: Seq<char>,
    pub quote: Option<char>,
}

/// The state after reading `s` from state `st`: outside quotes a backslash
/// takes the next character as it is and spaces end words; a quote opens, or
/// closes the same quote, and inside the other quote stands for itself.
pub open spec fn echo_lex(s: Seq<char>, st: EchoLexed) -> EchoLexed
    decreases s.len(),
{
    if s.len() == 0 {
        st
    } else {
        let c = s[0];
        if c == '\\' && st.quote is None {
            if s.len() > 1 {
                echo_lex(s.skip(2), EchoLexed { current: st.current.push(s[1]), ..st })
            } else {
                echo_lex(s.skip(1), EchoLexed { current: st.current.push('\\'), ..st })
            }
        } else if c == '"' || c == '\'' {
            if st.quote == Some(c) {
                echo_lex(s.skip(1), EchoLexed { quote: None, ..st })
            } else if st.quote is None {
                echo_lex(s.skip(1), EchoLexed { quote: Some(c), ..st })
            } else {
                echo_lex(s.skip(1), EchoLexed { current: st.current.push(c), ..st })
            }
        } else if c == ' ' && st.quote is None {
            if st.current.len() > 0 {
                echo_lex(s.skip(1), EchoLexed { words: st.words.push(st.current), current: seq![], ..st })
            } else {
                echo_lex(s.skip(1), st)
            }
        } else {
            echo_lex(s.skip(1), EchoLexed { current: st.current.push(c), ..st })
        }
    }
}

/// The words of `echo`'s line, the command name first.
pub open spec fn echo_words(s: Seq<char>) -> Seq<Seq<char>> {
    let st = echo_lex(s, EchoLexed { words: seq![], current: seq![], quote: None });
    if st.current.len() > 0 {
        st.words.push(st.current)
    } else {
        st.words
    }
}

/// The words joined by single spaces.
pub open spec fn spaced(ws: Seq<Seq<char>>) -> Seq<char>
    decreases ws.len(),
{
    if ws.len() == 0 {
        seq![]
    } else if ws.len() == 1 {
        ws[0]
    } else {
        spaced(ws.drop_last()) + seq![' '] + ws.last()
    }
}

/// The byte written for a character: the low eight bits of its code point.
pub open spec fn low_byte(c: char) -> u8 {
    (c as u32 % 256) as u8
}

/// The value of a hexadecimal digit.
pub open spec fn hex_value(c: char) -> Option<u8> {
    if '0' <= c && c <= '9' {
        Some((c as u32 - '0' as u32) as u8)
    } else if 'a' <= c && c <= 'f' {
        Some((c as u32 - 'a' as u32 + 10) as u8)
    } else if 'A' <= c && c <= 'F' {
        Some((c as u32 - 'A' as u32 + 10) as u8)
    } else {
        None
    }
}

/// The byte that two characters give when read as a hexadecimal number, as
/// `u8::from_str_radix` reads them: two digits, or `+` and one digit.
pub open spec fn hex_pair(h: char, l: char) -> Option<u8> {
    match (hex_value(h), hex_value(l)) {
        (Some(a), Some(b)) => Some((a * 16 + b) as u8),
        (None, Some(b)) if h == '+' => Some(b),
        _ => None,
    }
}

/// The bytes that `echo` writes for `s`: `\n`, `\t`, `\r` and `\\` give their
/// characters, `\xHH` the byte `HH`, `\c` ends the output at once; any other
/// backslash is written as it is, and a newline ends the output.
pub open spec fn echo_escapes(s: Seq<char>) -> Seq<u8>
    decreases s.len(),
{
    if s.len() == 0 {
        seq![10u8]
    } else if s[0] != '\\' {
        seq![low_byte(s[0])] + echo_escapes(s.skip(1))
    } else if s.len() == 1 {
        seq![92u8, 10u8]
    } else {
        let p = s[1];
        if p == 'x' {
            let r = s.skip(2);
            if r.len() >= 2 && hex_pair(r[0], r[1]) is Some {
                seq![hex_pair(r[0], r[1])->0] + echo_escapes(r.skip(2))
            } else if r.len() >= 2 {
                seq![low_byte(r[0]), low_byte(r[1])] + echo_escapes(r.skip(2))
            } else if r.len() == 1 {
                seq![low_byte(r[0])] + echo_escapes(r.skip(1))
            } else {
                echo_escapes(r)
            }
        } else if p == 'n' {
            seq![10u8] + echo_escapes(s.skip(2))
        } else if p == 't' {
            seq![9u8] + echo_escapes(s.skip(2))
        } else if p == 'r' {
            seq![13u8] + echo_escapes(s.skip(2))
        } else if p == 'c' {
            seq![]
        } else if p == '\\' {
            seq![92u8] + echo_escapes(s.skip(2))
        } else {
            seq![92u8, low_byte(p)] + echo_escapes(s.skip(1))
        }
    }
}

/// What `echo` prints for its whole line: the words after the command name,
/// joined by spaces, with escapes read.
pub open spec fn echo_output(line: Seq<char>) -> Seq<u8> {
    let ws = echo_words(line);
    echo_escapes(spaced(if ws.len() > 0 { ws.drop_first() } else { seq![] }))
}

fn low_byte_of(c: char) -> (r: u8)
    ensures
        r == low_byte(c),
{
    (c as u32 % 256) as u8
}

fn hex_value_of(c: char) -> (r: Option<u8>)
    ensures
        r == hex_value(c),
{
    if '0' <= c && c <= '9' {
        Some((c as u32 - '0' as u32) as u8)
    } else if 'a' <= c && c <= 'f' {
        Some((c as u32 - 'a' as u32 + 10) as u8)
    } else if 'A' <= c && c <= 'F' {
        Some((c as u32 - 'A' as u32 + 10) as u8)
    } else {
        None
    }
}

fn hex_pair_of(h: char, l: char) -> (r: Option<u8>)
    ensures
        r == hex_pair(h, l),
{
    match (hex_value_of(h), hex_value_of(l)) {
        (Some(a), Some(b)) => Some(a * 16 + b),
        (None, Some(b)) => if h == '+' {
            Some(b)
        } else {
            None
        },
        _ => None,
    }
}

/// The words of `echo`'s line.
fn words_of(line: &Vec<char>) -> (r: Vec<Vec<char>>)
    ensures
        r@.map_values(|w: Vec<char>| w@) == echo_words(line@),
{
    let n = line.len();
    let mut words: Vec<Vec<char>> = Vec::new();
    let mut current: Vec<char> = Vec::new();
    let mut quote: Option<char> = None;
    let ghost init = EchoLexed { words: seq![], current: seq![], quote: None };
    let mut i: usize = 0;
    assert(line@.skip(0) =~= line@);
    assert(words@.map_values(|w: Vec<char>| w@) =~= seq![]);
    while i < n
        invariant
            n == line.len(),
            i <= n,
            echo_lex(line@, init) == echo_lex(
                line@.skip(i as int),
                EchoLexed { words: words@.map_values(|w: Vec<char>| w@), current: current@, quote },
            ),
        decreases n - i,
    {
        let ghost s = line@.skip(i as int);
        assert(s[0] == line@[i as int]);
        let c = line[i];
        if c == '\\' && quote.is_none() {
            if i + 1 < n {
                assert(s[1] == line@[i + 1]);
                assert(s.skip(2) =~= line@.skip(i + 2));
                current.push(line[i + 1]);
                i = i + 2;
            } else {
                assert(s.skip(1) =~= line@.skip(i + 1));
                current.push('\\');
                i = i + 1;
            }
        } else {
            assert(s.skip(1) =~= line@.skip(i + 1));
            if c == '"' || c == '\'' {
                if quote == Some(c) {
                    quote = None;
                } else if quote.is_none() {
                    quote = Some(c);
                } else {
                    current.push(c);
                }
            } else if c == ' ' && quote.is_none() {
                if current.len() > 0 {
                    let ghost before = words@;
                    words.push(current);
                    assert(words@.map_values(|w: Vec<char>| w@) =~= before.map_values(
                        |w: Vec<char>| w@,
                    ).push(words@.last()@));
                    current = Vec::new();
                }
            } else {
                current.push(c);
            }
            i = i + 1;
        }
    }
    assert(line@.skip(i as int) =~= Seq::<char>::empty());
    if current.len() > 0 {
        let ghost before = words@;
        words.push(current);
        assert(words@.map_values(|w: Vec<char>| w@) =~= before.map_values(|w: Vec<char>| w@).push(
            words@.last()@,
        ));
    }
    words
}

/// The bytes that `echo` writes for its line.
pub fn echo_bytes(line: &str) -> (r: Vec<u8>)
    ensures
        r@ == echo_output(line@),
{
    let chars = crate::text::chars_of(line);
    let words = words_of(&chars);
    let ghost wv = words@.map_values(|w: Vec<char>| w@);
    let mut content: Vec<char> = Vec::new();
    if words.len() > 0 {
        let mut k: usize = 1;
        assert(content@ =~= spaced(wv.subrange(1, 1)));
        while k < words.len()
            invariant
                1 <= k <= words.len(),
                wv == words@.map_values(|w: Vec<char>| w@),
                content@ == spaced(wv.subrange(1, k as int)),
            decreases words.len() - k,
        {
            assert(wv.subrange(1, k + 1).drop_last() =~= wv.subrange(1, k as int));
            if k > 1 {
                content.push(' ');
            }
            let w = &words[k];
            let mut j: usize = 0;
            let ghost before = content@;
            while j < w.len()
                invariant
                    j <= w.len(),
                    content@ == before + w@.subrange(0, j as int),
                decreases w.len() - j,
            {
                content.push(w[j]);
                j = j + 1;
                assert(content@ =~= before + w@.subrange(0, j as int));
            }
            assert(w@.subrange(0, j as int) =~= w@);
            k = k + 1;
            assert(content@ =~= spaced(wv.subrange(1, k as int)));
        }
        assert(wv.subrange(1, wv.len() as int) =~= wv.drop_first());
    } else {
        assert(content@ =~= spaced(seq![]));
    }
    let n = content.len();
    let mut out: Vec<u8> = Vec::new();
    let mut i: usize = 0;
    assert(content@.skip(0) =~= content@);
    loop
        invariant_except_break
            echo_escapes(content@) == out@ + echo_escapes(content@.skip(i as int)),
        invariant
            n == content.len(),
            i <= n,
        ensures
            out@ == echo_escapes(content@),
        decreases n - i,
    {
        let ghost s = content@.skip(i as int);
        if i == n {
            out.push(10);
            assert(s =~= Seq::<char>::empty());
            break;
        }
        assert(s[0] == content@[i as int]);
        let c = content[i];
        if c != '\\' {
            out.push(low_byte_of(c));
            assert(s.skip(1) =~= content@.skip(i + 1));
            i = i + 1;
        } else if i + 1 == n {
            out.push(92);
            out.push(10);
            break;
        } else {
            let p = content[i + 1];
            assert(s[1] == p);
            if p == 'x' {
                let ghost r = s.skip(2);
                assert(r =~= content@.skip(i + 2));
                if n - i > 3 {
                    assert(r[0] == content@[i + 2] && r[1] == content@[i + 3]);
                    assert(r.skip(2) =~= content@.skip(i + 4));
                    match hex_pair_of(content[i + 2], content[i + 3]) {
                        Some(b) => out.push(b),
                        None => {
                            out.push(low_byte_of(content[i + 2]));
                            out.push(low_byte_of(content[i + 3]));
                        },
                    }
                    i = i + 4;
                } else if n - i == 3 {
                    assert(r[0] == content@[i + 2]);
                    assert(r.skip(1) =~= content@.skip(i + 3));
                    out.push(low_byte_of(content[i + 2]));
                    i = i + 3;
                } else {
                    i = i + 2;
                }
            } else if p == 'c' {
                break;
            } else {
                assert(s.skip(2) =~= content@.skip(i + 2));
                assert(s.skip(1) =~= content@.skip(i + 1));
                if p == 'n' {
                    out.push(10);
                    i = i + 2;
                } else if p == 't' {
                    out.push(9);
                    i = i + 2;
                } else if p == 'r' {
                    out.push(13);
                    i = i + 2;
                } else if p == '\\' {
                    out.push(92);
                    i = i + 2;
                } else {
                    out.push(92);
                    out.push(low_byte_of(p));
                    i = i + 1;
                }
            }
        }
    }
    out
}

} // verus!
