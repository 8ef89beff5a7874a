//! The text of a job table: one job per line, five schedule fields and then
//! the command, separated by blanks.

use vstd::prelude::*;

verus! {

/// Whether `c` separates words: the characters that Unicode marks as white
/// space.
pub open spec fn is_blank(c: char) -> bool {
    ||| '\u{9}' <= c <= '\u{d}'
    ||| c == ' '
    ||| c == '\u{85}'
    ||| c == '\u{a0}'
    ||| c == '\u{1680}'
    ||| '\u{2000}' <= c <= '\u{200a}'
    ||| c == '\u{2028}'
    ||| c == '\u{2029}'
    ||| c == '\u{202f}'
    ||| c == '\u{205f}'
    ||| c == '\u{3000}'
}

/// The words of `text`: its longest runs of characters that are not blank,
/// from left to right.
///
/// Read character by character: a blank adds nothing, a character that
/// follows a character of a word makes that word longer, and any other
/// character starts a new word.
pub open spec fn words(text: Seq<char>) -> Seq<Seq<char>>
    decreases text.len(),
{
    if text.len() == 0 {
        Seq::empty()
    } else {
        let before = words(text.drop_last());
        let c = text.last();
        if is_blank(c) {
            before
        } else if text.len() >= 2 && !is_blank(text[text.len() - 2]) {
            before.drop_last().push(before.last().push(c))
        } else {
            before.push(seq![c])
        }
    }
}

/// `parts` written one after the other with a single space between
/// neighbours.
pub open spec fn joined(parts: Seq<Seq<char>>) -> Seq<char>
    decreases parts.len(),
{
    if parts.len() == 0 {
        Seq::empty()
    } else if parts.len() == 1 {
        parts[0]
    } else {
        joined(parts.drop_last()) + seq![' '] + parts.last()
    }
}

/// Whether `line` is a comment: its first word begins with `#`.
pub open spec fn is_comment(line: Seq<char>) -> bool {
    words(line).len() > 0 && words(line)[0].len() > 0 && words(line)[0][0] == '#'
}

/// The schedule expression and the command that `line` holds: its first five
/// words and the words after them, each group joined by single spaces. A
/// comment holds none, nor does a line of fewer than five words.
pub open spec fn entry(line: Seq<char>) -> Option<(Seq<char>, Seq<char>)> {
    if is_comment(line) || words(line).len() < 5 {
        None
    } else {
        Some((joined(words(line).take(5)), joined(words(line).skip(5))))
    }
}

/// Whether `word` could be a word of a text: it has a character, and none of
/// its characters is blank.
pub open spec fn is_word(word: Seq<char>) -> bool {
    word.len() > 0 && forall|j: int| 0 <= j < word.len() ==> !is_blank(#[trigger] word[j])
}

/// Every word of a text is a word: it has a character, and none of its
/// characters is blank. A text that ends in a character that is not blank
/// has a word.
pub proof fn lemma_words_are_words(text: Seq<char>)
    ensures
        forall|i: int| 0 <= i < words(text).len() ==> is_word(#[trigger] words(text)[i]),
        text.len() > 0 && !is_blank(text.last()) ==> words(text).len() > 0,
    decreases text.len(),
{
    if text.len() > 0 {
        let before = words(text.drop_last());
        let c = text.last();
        lemma_words_are_words(text.drop_last());
        if is_blank(c) {
        } else if text.len() >= 2 && !is_blank(text[text.len() - 2]) {
            assert(text.drop_last().last() == text[text.len() - 2]);
            assert(is_word(before.last()));
            assert forall|i: int| 0 <= i < words(text).len() implies is_word(
                #[trigger] words(text)[i],
            ) by {
                if i < before.len() - 1 {
                    assert(words(text)[i] == before[i]);
                } else {
                    let grown = words(text)[i];
                    assert forall|j: int| 0 <= j < grown.len() implies !is_blank(
                        #[trigger] grown[j],
                    ) by {
                        if j < before.last().len() {
                            assert(grown[j] == before.last()[j]);
                        }
                    }
                }
            }
        } else {
            assert forall|i: int| 0 <= i < words(text).len() implies is_word(
                #[trigger] words(text)[i],
            ) by {
                if i < before.len() {
                    assert(words(text)[i] == before[i]);
                }
            }
        }
    }
}

/// A word written after a text that does not end inside a word is one more
/// word of the text.
pub proof fn lemma_words_with_one_more(text: Seq<char>, word: Seq<char>)
    requires
        is_word(word),
        text.len() == 0 || is_blank(text.last()),
    ensures
        words(text + word) == words(text).push(word),
    decreases word.len(),
{
    let c = word.last();
    let start = word.drop_last();
    assert((text + word).drop_last() == text + start);
    assert(!is_blank(word[word.len() - 1]));
    if start.len() == 0 {
        assert(text + start == text);
        assert(seq![c] == word);
    } else {
        assert forall|j: int| 0 <= j < start.len() implies !is_blank(#[trigger] start[j]) by {
            assert(start[j] == word[j]);
        }
        lemma_words_with_one_more(text, start);
        assert((text + word)[(text + word).len() - 2] == word[word.len() - 2]);
        assert(!is_blank(word[word.len() - 2]));
        assert(words(text).push(start).drop_last() == words(text));
        assert(start.push(c) == word);
    }
}

/// Words that are joined come apart again as they were.
pub proof fn lemma_words_of_joined(parts: Seq<Seq<char>>)
    requires
        forall|i: int| 0 <= i < parts.len() ==> is_word(#[trigger] parts[i]),
    ensures
        words(joined(parts)) == parts,
        parts.len() > 0 ==> joined(parts).len() > 0 && !is_blank(joined(parts).last()),
    decreases parts.len(),
{
    if parts.len() == 0 {
    } else if parts.len() == 1 {
        assert(is_word(parts[0]));
        lemma_words_with_one_more(Seq::empty(), parts[0]);
        assert(Seq::<char>::empty() + parts[0] == parts[0]);
        assert(Seq::<Seq<char>>::empty().push(parts[0]) == parts);
        assert(!is_blank(parts[0][parts[0].len() - 1]));
    } else {
        let start = parts.drop_last();
        assert forall|i: int| 0 <= i < start.len() implies is_word(#[trigger] start[i]) by {
            assert(start[i] == parts[i]);
        }
        lemma_words_of_joined(start);
        let spaced = joined(start) + seq![' '];
        assert(spaced.drop_last() == joined(start));
        assert(words(spaced) == start);
        assert(is_word(parts.last()));
        lemma_words_with_one_more(spaced, parts.last());
        assert(start.push(parts.last()) == parts);
        assert(!is_blank(parts.last()[parts.last().len() - 1]));
    }
}

/// Joining two groups of words with a space between them joins all the
/// words.
pub proof fn lemma_joined_groups(head: Seq<Seq<char>>, tail: Seq<Seq<char>>)
    requires
        head.len() > 0,
        tail.len() > 0,
    ensures
        joined(head + tail) == joined(head) + seq![' '] + joined(tail),
    decreases tail.len(),
{
    assert((head + tail).drop_last() == head + tail.drop_last());
    if tail.len() == 1 {
        assert(head + tail.drop_last() == head);
    } else {
        lemma_joined_groups(head, tail.drop_last());
        assert(joined(head) + seq![' '] + joined(tail.drop_last()) + seq![' '] + tail.last()
            == joined(head) + seq![' '] + (joined(tail.drop_last()) + seq![' '] + tail.last()));
    }
}

/// An entry written as a line reads back as itself: the schedule, a space
/// and the command hold the same schedule and command.
pub proof fn lemma_entry_reads_back(line: Seq<char>)
    requires
        entry(line) is Some,
    ensures
        ({
            let (schedule, program) = entry(line).unwrap();
            entry(schedule + seq![' '] + program) == entry(line)
        }),
{
    let head = words(line).take(5);
    let tail = words(line).skip(5);
    let written = joined(head) + seq![' '] + joined(tail);
    lemma_words_are_words(line);
    assert forall|i: int| 0 <= i < head.len() implies is_word(#[trigger] head[i]) by {
        assert(head[i] == words(line)[i]);
    }
    assert forall|i: int| 0 <= i < tail.len() implies is_word(#[trigger] tail[i]) by {
        assert(tail[i] == words(line)[i + 5]);
    }
    if tail.len() == 0 {
        lemma_words_of_joined(head);
        assert(written == joined(head) + seq![' ']);
        assert(written.drop_last() == joined(head));
        assert(words(written) == head);
    } else {
        lemma_joined_groups(head, tail);
        assert(head + tail == words(line));
        lemma_words_of_joined(words(line));
        assert(words(written) == words(line));
    }
    assert(words(written).take(5) == head);
    assert(words(written).skip(5) == tail);
    assert(words(written)[0] == words(line)[0]);
}

/// Decides whether `c` is blank.
pub fn is_blank_char(c: char) -> (r: bool)
    ensures
        r == is_blank(c),
{
    ('\u{9}' <= c && c <= '\u{d}') || c == ' ' || c == '\u{85}' || c == '\u{a0}' || c == '\u{1680}'
        || ('\u{2000}' <= c && c <= '\u{200a}') || c == '\u{2028}' || c == '\u{2029}' || c
        == '\u{202f}' || c == '\u{205f}' || c == '\u{3000}'
}

/// `String::push` of the standard library appends the character to the end
/// of the string.
pub assume_specification[ String::push ](s: &mut String, ch: char)
    ensures
        final(s)@ == old(s)@.push(ch),
;

/// Splits `text` into its words.
pub fn split_words(text: &str) -> (out: Vec<String>)
    ensures
        out.deep_view() == words(text@),
{
    let mut out: Vec<String> = Vec::new();
    let mut word = String::new();
    let mut open = false;
    for c in it: text.chars()
        invariant
            it.seq() == text@,
            open <==> (it.index() > 0 && !is_blank(text@[it.index() - 1])),
            open ==> words(text@.take(it.index())) == out.deep_view().push(word@),
            !open ==> words(text@.take(it.index())) == out.deep_view() && word@.len() == 0,
    {
        let ghost read = text@.take(it.index() + 1);
        let ghost done = out.deep_view();
        let ghost part = word@;
        proof {
            assert(read.drop_last() == text@.take(it.index()));
            assert(read.last() == c);
            if open {
                assert(done.push(part).drop_last() == done);
            }
        }
        if is_blank_char(c) {
            if open {
                out.push(word);
                word = String::new();
                open = false;
                assert(out.deep_view() == done.push(part));
            }
        } else {
            word.push(c);
            open = true;
            assert(word@ == part.push(c));
            assert(part.len() == 0 ==> part.push(c) == seq![c]);
        }
    }
    assert(text@.take(text@.len() as int) == text@);
    if open {
        let ghost done = out.deep_view();
        out.push(word);
        assert(out.deep_view() == done.push(word@));
    }
    out
}

/// Joins `words[from..to]` with single spaces.
pub fn join_words(words: &Vec<String>, from: usize, to: usize) -> (out: String)
    requires
        from <= to <= words.len(),
    ensures
        out@ == joined(words.deep_view().subrange(from as int, to as int)),
{
    let mut out = String::new();
    let mut i = from;
    while i < to
        invariant
            from <= i <= to <= words.len(),
            out@ == joined(words.deep_view().subrange(from as int, i as int)),
        decreases to - i,
    {
        let ghost next = words.deep_view().subrange(from as int, i + 1);
        assert(next.drop_last() == words.deep_view().subrange(from as int, i as int));
        assert(next.last() == words[i as int]@);
        if i > from {
            out.push(' ');
        }
        out.append(words[i].as_str());
        i += 1;
    }
    out
}

/// Reads one line of a job table: the schedule expression and the command,
/// or `None` for a comment and for a line of fewer than five words.
pub fn split_line(line: &str) -> (r: Option<(String, String)>)
    ensures
        r is Some <==> entry(line@) is Some,
        r matches Some((schedule, program)) ==> entry(line@) == Some((schedule@, program@)),
{
    let words = split_words(line);
    if words.len() < 5 {
        return None;
    }
    proof {
        lemma_words_are_words(line@);
    }
    if words[0].as_str().get_char(0) == '#' {
        return None;
    }
    let schedule = join_words(&words, 0, 5);
    let program = join_words(&words, 5, words.len());
    proof {
        assert(words.deep_view().subrange(0, 5) == words.deep_view().take(5));
        assert(words.deep_view().subrange(5, words.len() as int) == words.deep_view().skip(5));
    }
    Some((schedule, program))
}

} // verus!
