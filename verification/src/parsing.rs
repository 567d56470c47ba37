//! Reading the names of a service.
use crate::error::Error;
use crate::names::{parsed_name, valid_labels, DomainName, NameView};
use crate::text::texts;
use vstd::prelude::*;

verus! {

/// A text and the name that it writes.
pub struct ParsedName {
    pub text: String,
    pub name: DomainName,
}

/// The texts and names of a sequence.
pub open spec fn parsed_views(names: Seq<ParsedName>) -> Seq<(Seq<char>, NameView)> {
    names.map_values(|n: ParsedName| (n.text@, n.name@))
}

/// Whether all the names of a sequence are names.
pub open spec fn all_valid(names: Seq<ParsedName>) -> bool {
    forall|i: int| 0 <= i < names.len() ==> (#[trigger] names[i]).name@.valid()
}

/// The texts before the first one that writes no name, with their names.
pub open spec fn parsed_prefix(texts: Seq<Seq<char>>) -> Seq<(Seq<char>, NameView)>
    decreases texts.len(),
{
    if texts.len() == 0 {
        Seq::empty()
    } else {
        let front = parsed_prefix(texts.drop_last());
        match parsed_name(texts.last()) {
            Ok(name) if front.len() == texts.len() - 1 => front.push((texts.last(), name)),
            _ => front,
        }
    }
}

/// Whether every text writes a name.
pub open spec fn all_parse(texts: Seq<Seq<char>>) -> bool {
    forall|i: int| 0 <= i < texts.len() ==> parsed_name(#[trigger] texts[i]) is Ok
}

/// The error of the first text that writes no name, if there is one.
pub open spec fn parse_error(texts: Seq<Seq<char>>) -> Option<Error> {
    if all_parse(texts) {
        None
    } else {
        Some(name_error(texts[parsed_prefix(texts).len() as int]))
    }
}

/// The error that a text which writes no name ends in.
pub open spec fn name_error(text: Seq<char>) -> Error {
    Error::TrustDNSProto(parsed_name(text)->Err_0)
}

/// The prefix is no longer than the sequence, as long only if every text writes a name, and what
/// follows a text that writes none is left out.
proof fn lemma_parsed_prefix(texts: Seq<Seq<char>>, n: int)
    requires
        0 <= n <= texts.len(),
    ensures
        parsed_prefix(texts).len() <= texts.len(),
        parsed_prefix(texts).len() == texts.len() <==> all_parse(texts),
        parsed_prefix(texts.take(n)).len() < n ==> parsed_prefix(texts) == parsed_prefix(
            texts.take(n),
        ),
    decreases texts.len(),
{
    if texts.len() > 0 {
        let front = texts.drop_last();
        let m = if n < texts.len() {
            n
        } else {
            front.len() as int
        };
        lemma_parsed_prefix(front, m);
        assert(front.take(m) == texts.take(m));
        assert(texts.take(texts.len() as int) == texts);
        assert(all_parse(texts) <==> all_parse(front) && parsed_name(texts.last()) is Ok) by {
            if all_parse(front) && parsed_name(texts.last()) is Ok {
                assert forall|i: int| 0 <= i < texts.len() implies parsed_name(
                    #[trigger] texts[i],
                ) is Ok by {
                    if i < front.len() {
                        assert(texts[i] == front[i]);
                    }
                }
            }
            if all_parse(texts) {
                assert forall|i: int| 0 <= i < front.len() implies parsed_name(
                    #[trigger] front[i],
                ) is Ok by {
                    assert(texts[i] == front[i]);
                }
                assert(texts[texts.len() - 1] == texts.last());
            }
        }
    } else {
        assert(texts.take(n) == texts);
    }
}

/// Reads names up to the first text that writes none, which becomes the error.
pub fn parse_names(strings: &Vec<String>) -> (r: (Vec<ParsedName>, Option<Error>))
    ensures
        parsed_views(r.0@) == parsed_prefix(texts(strings@)),
        all_valid(r.0@),
        r.1 == parse_error(texts(strings@)),
{
    let mut names: Vec<ParsedName> = Vec::new();
    let ghost all = texts(strings@);
    for i in 0..strings.len()
        invariant
            all == texts(strings@),
            parsed_views(names@) == parsed_prefix(all.take(i as int)),
            names@.len() == i,
            all_valid(names@),
    {
        proof {
            assert(all.take(i + 1).drop_last() == all.take(i as int));
            assert(all.take(i + 1).last() == strings@[i as int]@);
        }
        match DomainName::parse(strings[i].as_str()) {
            Ok(name) => {
                let ghost before = names@;
                names.push(ParsedName { text: strings[i].clone(), name });
                assert(parsed_views(names@) == parsed_views(before).push(
                    (all[i as int], names@[i as int].name@),
                ));
            },
            Err(error) => {
                proof {
                    lemma_parsed_prefix(all, i + 1);
                    assert(parsed_prefix(all.take(i + 1)) == parsed_prefix(all.take(i as int)));
                    assert(all[i as int] == strings@[i as int]@);
                }
                return (names, Some(Error::from(error)));
            },
        }
    }
    proof {
        lemma_parsed_prefix(all, all.len() as int);
        assert(all.take(all.len() as int) == all);
    }
    (names, None)
}

/// Reading stops at the first text that writes no name and not before: every text up to there is kept
/// with its name, and the error is that of the text where reading stopped.
pub proof fn law_reading_stops_at_the_first_error(texts: Seq<Seq<char>>)
    ensures
        parsed_prefix(texts).len() <= texts.len(),
        forall|i: int|
            0 <= i < parsed_prefix(texts).len() ==> parsed_name(#[trigger] texts[i]) is Ok
                && parsed_prefix(texts)[i] == (texts[i], parsed_name(texts[i])->Ok_0),
        parsed_prefix(texts).len() < texts.len() ==> {
            let stop = texts[parsed_prefix(texts).len() as int];
            &&& parsed_name(stop) is Err
            &&& !all_parse(texts)
            &&& parse_error(texts) == Some(Error::TrustDNSProto(parsed_name(stop)->Err_0))
        },
        parsed_prefix(texts).len() == texts.len() ==> all_parse(texts) && parse_error(texts) is None,
    decreases texts.len(),
{
    lemma_parsed_prefix(texts, texts.len() as int);
    if texts.len() > 0 {
        let front = texts.drop_last();
        law_reading_stops_at_the_first_error(front);
        assert forall|i: int| 0 <= i < parsed_prefix(texts).len() implies parsed_name(
            #[trigger] texts[i],
        ) is Ok && parsed_prefix(texts)[i] == (texts[i], parsed_name(texts[i])->Ok_0) by {
            if i < parsed_prefix(front).len() {
                assert(parsed_prefix(texts)[i] == parsed_prefix(front)[i]);
                assert(front[i] == texts[i]);
            } else {
                assert(i == texts.len() - 1);
                assert(texts[i] == texts.last());
            }
        }
    }
}

/// All texts write names exactly if none of them is refused.
pub proof fn law_all_parse_means_every_text(texts: Seq<Seq<char>>)
    ensures
        all_parse(texts) <==> forall|i: int|
            0 <= i < texts.len() ==> !(parsed_name(#[trigger] texts[i]) is Err),
{
}

/// The view of a name that was read holds its text and the name, and the views keep their order.
pub proof fn law_parsed_views_are_faithful(names: Seq<ParsedName>)
    ensures
        parsed_views(names).len() == names.len(),
        forall|i: int|
            0 <= i < names.len() ==> (#[trigger] parsed_views(names)[i]).0 == names[i].text@
                && parsed_views(names)[i].1 == names[i].name@,
        all_valid(names) <==> forall|i: int|
            0 <= i < names.len() ==> valid_labels((#[trigger] names[i]).name@.labels),
{
}

} // verus!
