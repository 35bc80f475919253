//! The adapter between the procedures and the actor: it turns each request
//! into the command that the actor takes, and answers the client.
//!
//! A request is answered as soon as its command is queued. Whatever the
//! actor later makes of the command, the client hears nothing of it.

use crate::command::{tags_view, Command, CommandView};
use crate::rpc::{EmptyResponse, FinishRequest, StartSpanRequest};
use vstd::prelude::*;

verus! {

/// The position of the first `mark` in `text`, or the length of `text`
/// where it holds none.
pub open spec fn first_at(text: Seq<char>, mark: char) -> int
    decreases text.len(),
{
    if text.len() == 0 {
        0
    } else if text[0] == mark {
        0
    } else {
        1 + first_at(text.drop_first(), mark)
    }
}

/// The key and the value of one tag: what stands before the first colon,
/// and what stands after it. A tag without a colon has an empty value.
pub open spec fn tag_of(segment: Seq<char>) -> (Seq<char>, Seq<char>) {
    let colon = first_at(segment, ':');
    if 0 <= colon < segment.len() {
        (segment.subrange(0, colon), segment.subrange(colon + 1, segment.len() as int))
    } else {
        (segment, Seq::empty())
    }
}

/// The tags that a text of comma-separated `key:value` pairs holds, in
/// order. Empty stretches between commas hold no tag.
pub open spec fn parsed_tags(text: Seq<char>) -> Seq<(Seq<char>, Seq<char>)>
    decreases text.len(),
{
    if text.len() == 0 {
        Seq::empty()
    } else {
        let comma = first_at(text, ',');
        if 0 <= comma < text.len() {
            let found = if comma == 0 {
                Seq::empty()
            } else {
                seq![tag_of(text.subrange(0, comma))]
            };
            found + parsed_tags(text.subrange(comma + 1, text.len() as int))
        } else {
            seq![tag_of(text)]
        }
    }
}

/// The first `mark` stands where a `mark` stands with none before it, and
/// at the end where there is none at all.
pub proof fn lemma_first_at(text: Seq<char>, mark: char, at: int)
    requires
        0 <= at <= text.len(),
        forall|j: int| 0 <= j < at ==> text[j] != mark,
        at < text.len() ==> text[at] == mark,
    ensures
        first_at(text, mark) == at,
    decreases text.len(),
{
    if text.len() > 0 && at > 0 {
        let rest = text.drop_first();
        assert forall|j: int| 0 <= j < at - 1 implies rest[j] != mark by {
            assert(rest[j] == text[j + 1]);
        }
        lemma_first_at(rest, mark, at - 1);
    }
}

/// Where the first `mark` stands: within the text or at its end, with no
/// `mark` before it, and on a `mark` unless it is the end.
pub proof fn lemma_first_at_is_first(text: Seq<char>, mark: char)
    ensures
        0 <= first_at(text, mark) <= text.len(),
        forall|j: int| 0 <= j < first_at(text, mark) ==> text[j] != mark,
        first_at(text, mark) < text.len() ==> text[first_at(text, mark)] == mark,
    decreases text.len(),
{
    if text.len() > 0 && text[0] != mark {
        let rest = text.drop_first();
        lemma_first_at_is_first(rest, mark);
        assert forall|j: int| 0 <= j < first_at(text, mark) implies text[j] != mark by {
            if j > 0 {
                assert(text[j] == rest[j - 1]);
            }
        }
    }
}

/// A tag's key holds no colon, and key and value together give the
/// segment back: the key alone where the segment holds no colon, else key,
/// colon and value.
pub proof fn lemma_tag_keeps_its_segment(segment: Seq<char>)
    ensures
        !tag_of(segment).0.contains(':'),
        segment.contains(':') ==> segment == tag_of(segment).0 + seq![':'] + tag_of(segment).1,
        !segment.contains(':') ==> tag_of(segment) == (segment, Seq::<char>::empty()),
{
    lemma_first_at_is_first(segment, ':');
    let colon = first_at(segment, ':');
    if colon < segment.len() {
        assert(segment =~= tag_of(segment).0 + seq![':'] + tag_of(segment).1);
    } else {
        assert(!segment.contains(':'));
    }
}

/// A text without a comma holds one tag, or none where it is empty.
pub proof fn lemma_tags_of_one_segment(segment: Seq<char>)
    requires
        !segment.contains(','),
    ensures
        parsed_tags(segment) == if segment.len() == 0 {
            Seq::<(Seq<char>, Seq<char>)>::empty()
        } else {
            seq![tag_of(segment)]
        },
{
    lemma_first_at_is_first(segment, ',');
}

/// The tags of two texts joined by a comma are the tags of the first, then
/// those of the second. So an empty stretch before, between or after
/// commas adds nothing.
pub proof fn lemma_tags_of_joined(first: Seq<char>, second: Seq<char>)
    ensures
        parsed_tags(first + seq![','] + second) == parsed_tags(first) + parsed_tags(second),
    decreases first.len(),
{
    let joined = first + seq![','] + second;
    let none = Seq::<(Seq<char>, Seq<char>)>::empty();
    lemma_first_at_is_first(first, ',');
    let comma = first_at(first, ',');
    assert forall|j: int| 0 <= j < comma implies joined[j] != ',' by {
        assert(joined[j] == first[j]);
    }
    lemma_first_at(joined, ',', comma);
    assert(joined.subrange(0, comma) =~= first.subrange(0, comma));
    if comma < first.len() {
        let rest = first.subrange(comma + 1, first.len() as int);
        assert(joined.subrange(comma + 1, joined.len() as int) =~= rest + seq![','] + second);
        lemma_tags_of_joined(rest, second);
        let found = if comma == 0 {
            none
        } else {
            seq![tag_of(first.subrange(0, comma))]
        };
        assert(found + (parsed_tags(rest) + parsed_tags(second)) =~= (found + parsed_tags(rest))
            + parsed_tags(second));
    } else {
        assert(joined.subrange(comma + 1, joined.len() as int) =~= second);
        assert(first.subrange(0, comma) =~= first);
        if first.len() == 0 {
            assert(none + parsed_tags(second) =~= parsed_tags(second));
        }
    }
}

/// Cuts the tag out of `text` that spans the characters from `start` up to
/// `end`, with its first colon at `colon`.
fn cut_tag(text: &str, start: usize, colon: Option<usize>, end: usize) -> (tag: (String, String))
    requires
        start < end <= text@.len(),
        match colon {
            Some(at) => start <= at < end && text@[at as int] == ':' && forall|j: int|
                start <= j < at ==> text@[j] != ':',
            None => forall|j: int| start <= j < end ==> text@[j] != ':',
        },
    ensures
        (tag.0@, tag.1@) == tag_of(text@.subrange(start as int, end as int)),
{
    let ghost segment = text@.subrange(start as int, end as int);
    match colon {
        Some(at) => {
            proof {
                lemma_first_at(segment, ':', at - start);
            }
            let key = text.substring_char(start, at).to_owned();
            let value = text.substring_char(at + 1, end).to_owned();
            assert(key@ =~= segment.subrange(0, at - start));
            assert(value@ =~= segment.subrange(at - start + 1, segment.len() as int));
            (key, value)
        },
        None => {
            proof {
                lemma_first_at(segment, ':', segment.len() as int);
            }
            let key = text.substring_char(start, end).to_owned();
            (key, String::new())
        },
    }
}

/// Reads the tags out of a text of comma-separated `key:value` pairs.
///
/// Each stretch between commas gives one tag, in order; an empty stretch
/// gives none. A tag's key ends at its first colon and its value is all
/// that follows; where a stretch holds no colon, it is the key of a tag
/// with an empty value.
pub fn parse_tags(text: &str) -> (tags: Vec<(String, String)>)
    ensures
        tags_view(tags@) == parsed_tags(text@),
{
    let length: usize = text.unicode_len();
    let mut tags: Vec<(String, String)> = Vec::new();
    let mut start: usize = 0;
    let mut colon: Option<usize> = None;
    let mut at: usize = 0;
    proof {
        assert(text@.subrange(0, text@.len() as int) =~= text@);
        assert(tags_view(tags@) + parsed_tags(text@) =~= parsed_tags(text@));
    }
    for c in iter: text.chars()
        invariant
            iter.seq() == text@,
            at == iter.index(),
            length == text@.len(),
            start <= at <= length,
            forall|j: int| start <= j < at ==> text@[j] != ',',
            match colon {
                Some(first) => start <= first < at && text@[first as int] == ':' && forall|j: int|
                    start <= j < first ==> text@[j] != ':',
                None => forall|j: int| start <= j < at ==> text@[j] != ':',
            },
            tags_view(tags@) + parsed_tags(text@.subrange(start as int, length as int))
                == parsed_tags(text@),
    {
        assert(c == text@[at as int]);
        if c == ',' {
            let ghost rest = text@.subrange(start as int, length as int);
            let ghost before = tags_view(tags@);
            proof {
                lemma_first_at(rest, ',', at - start);
                assert(rest.subrange(at - start + 1, rest.len() as int) =~= text@.subrange(
                    at + 1,
                    length as int,
                ));
                assert(rest.subrange(0, at - start) =~= text@.subrange(start as int, at as int));
            }
            if start < at {
                let tag = cut_tag(text, start, colon, at);
                tags.push(tag);
                proof {
                    let found = seq![tag_of(text@.subrange(start as int, at as int))];
                    assert(tags_view(tags@) =~= before + found);
                    assert(before + (found + parsed_tags(
                        text@.subrange(at + 1, length as int),
                    )) =~= (before + found) + parsed_tags(text@.subrange(at + 1, length as int)));
                }
            } else {
                proof {
                    assert(Seq::<(Seq<char>, Seq<char>)>::empty() + parsed_tags(
                        text@.subrange(at + 1, length as int),
                    ) =~= parsed_tags(text@.subrange(at + 1, length as int)));
                }
            }
            start = at + 1;
            colon = None;
        } else if c == ':' && colon.is_none() {
            colon = Some(at);
        }
        at = at + 1;
    }
    let ghost rest = text@.subrange(start as int, length as int);
    let ghost before = tags_view(tags@);
    if start < length {
        proof {
            lemma_first_at(rest, ',', rest.len() as int);
        }
        let tag = cut_tag(text, start, colon, length);
        tags.push(tag);
        assert(tags_view(tags@) =~= before + seq![tag_of(rest)]);
    } else {
        assert(before + Seq::<(Seq<char>, Seq<char>)>::empty() =~= before);
    }
    tags
}

/// The command that a request to start a span stands for.
pub open spec fn start_span_command(
    operation_name: Seq<char>,
    span_id: u64,
    child_of: Option<u64>,
    follows_from: Option<u64>,
    tags: Seq<char>,
    time: Option<crate::time::Timestamp>,
) -> CommandView {
    CommandView::StartSpan {
        span_id,
        operation_name,
        child_of,
        follows_from,
        tags: parsed_tags(tags),
        time,
    }
}

/// Answers a request to start a span: the command to queue for the actor,
/// and the response for the client, which is `Okay` whatever the request
/// holds.
pub fn handle_start_span(request: StartSpanRequest) -> (answer: (Command, EmptyResponse))
    ensures
        answer.0@ == start_span_command(
            request.query.operation_name@,
            request.query.span_id,
            request.query.child_of,
            request.query.follows_from,
            request.query.tags@,
            request.query.time,
        ),
        answer.1 == EmptyResponse::Okay,
{
    let query = request.query;
    let tags = parse_tags(query.tags.as_str());
    (
        Command::StartSpan {
            span_id: query.span_id,
            operation_name: query.operation_name,
            child_of: query.child_of,
            follows_from: query.follows_from,
            tags,
            time: query.time,
        },
        EmptyResponse::Okay,
    )
}

/// Answers a request to finish a span: the command to queue for the actor,
/// and the response for the client, which is `Okay` whether or not a span
/// is open under the number.
pub fn handle_finish(request: FinishRequest) -> (answer: (Command, EmptyResponse))
    ensures
        answer.0@ == (CommandView::Finish {
            span_id: request.query.span_id,
            finish_time: request.query.time,
        }),
        answer.1 == EmptyResponse::Okay,
{
    (
        Command::Finish { span_id: request.query.span_id, finish_time: request.query.time },
        EmptyResponse::Okay,
    )
}

} // verus!
