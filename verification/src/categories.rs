//! The two-tier category rule set and the rule match that resolves a
//! (category, class) label pair for one record.

use vstd::prelude::*;
use crate::text::{contains_seq, lower_of, str_contains, to_lowercase};

verus! {

/// The ordered matching rules, split at load time into rules matched
/// against a record's text and rules matched against its transaction type.
/// Each rule holds `[category, class, keyword...]`.
#[derive(Default, Debug)]
pub struct Categories {
    pub from_text: Vec<Vec<String>>,
    pub from_type: Vec<Vec<String>>,
}

/// Every rule carries at least its category and class fields.
pub open spec fn rules_wf(rules: Seq<Seq<Seq<char>>>) -> bool {
    forall|i: int| 0 <= i < rules.len() ==> (#[trigger] rules[i]).len() >= 2
}

/// Only the rules with at least two fields; the rest carry no payload and
/// are dropped.
pub open spec fn keep_rules(rules: Seq<Seq<Seq<char>>>) -> Seq<Seq<Seq<char>>> {
    rules.filter(|v: Seq<Seq<char>>| v.len() >= 2)
}

impl Categories {
    pub open spec fn wf(self) -> bool {
        rules_wf(self.from_text.deep_view()) && rules_wf(self.from_type.deep_view())
    }
}

fn clone_rule(v: &Vec<String>) -> (r: Vec<String>)
    ensures
        r.deep_view() == v.deep_view(),
{
    let mut out: Vec<String> = Vec::new();
    let mut i: usize = 0;
    while i < v.len()
        invariant
            i <= v@.len(),
            out@.len() == i,
            forall|j: int| 0 <= j < i ==> (#[trigger] out@[j])@ == v@[j]@,
        decreases v@.len() - i,
    {
        out.push(v[i].clone());
        i += 1;
    }
    proof {
        assert(out.deep_view() =~~= v.deep_view());
    }
    out
}

fn keep_rules_exec(rules: &Vec<Vec<String>>) -> (r: Vec<Vec<String>>)
    ensures
        r.deep_view() == keep_rules(rules.deep_view()),
{
    let mut out: Vec<Vec<String>> = Vec::new();
    let mut i: usize = 0;
    while i < rules.len()
        invariant
            i <= rules@.len(),
            out.deep_view() == keep_rules(rules.deep_view().take(i as int)),
        decreases rules@.len() - i,
    {
        proof {
            reveal(Seq::filter);
            let dv = rules.deep_view();
            assert(dv.take(i + 1) =~= dv.take(i as int).push(dv[i as int]));
            assert(dv.take(i + 1).drop_last() =~= dv.take(i as int));
            assert(dv[i as int].len() == rules@[i as int]@.len());
        }
        if rules[i].len() >= 2 {
            let copied = clone_rule(&rules[i]);
            out.push(copied);
            proof {
                assert(out.deep_view() =~~= keep_rules(rules.deep_view().take(i + 1)));
            }
        } else {
            proof {
                assert(out.deep_view() =~~= keep_rules(rules.deep_view().take(i + 1)));
            }
        }
        i += 1;
    }
    proof {
        assert(rules.deep_view().take(rules@.len() as int) =~= rules.deep_view());
    }
    out
}

impl Categories {
    /// Keeps only the rules that carry at least a category and a class.
    pub fn new(from_text: Vec<Vec<String>>, from_type: Vec<Vec<String>>) -> (r: Self)
        ensures
            r.from_text.deep_view() == keep_rules(from_text.deep_view()),
            r.from_type.deep_view() == keep_rules(from_type.deep_view()),
            r.wf(),
    {
        let kept_text = keep_rules_exec(&from_text);
        let kept_type = keep_rules_exec(&from_type);
        proof {
            lemma_keep_rules_wf(from_text.deep_view());
            lemma_keep_rules_wf(from_type.deep_view());
        }
        Self { from_text: kept_text, from_type: kept_type }
    }
}

proof fn lemma_keep_rules_wf(rules: Seq<Seq<Seq<char>>>)
    ensures
        rules_wf(keep_rules(rules)),
    decreases rules.len(),
{
    reveal(Seq::filter);
    if rules.len() > 0 {
        lemma_keep_rules_wf(rules.drop_last());
        let kept = keep_rules(rules);
        let prev = keep_rules(rules.drop_last());
        assert forall|i: int| 0 <= i < kept.len() implies (#[trigger] kept[i]).len() >= 2 by {
            if i < prev.len() {
                assert(kept[i] == prev[i]);
            }
        }
    }
}

/// A type rule fires when the record's type contains the rule's category
/// keyword, case-insensitively.
pub open spec fn type_rule_fires(tp: Seq<char>, rule: Seq<Seq<char>>) -> bool {
    contains_seq(lower_of(tp), lower_of(rule[0]))
}

/// A text rule fires when the record's text contains any of the rule's
/// keywords, case-insensitively.
pub open spec fn text_rule_fires(tx: Seq<char>, rule: Seq<Seq<char>>) -> bool {
    exists|k: int| 2 <= k < rule.len() && contains_seq(lower_of(tx), lower_of(#[trigger] rule[k]))
}

/// The label pair of the first type rule that fires, in load order.
pub open spec fn first_type_match(tp: Seq<char>, rules: Seq<Seq<Seq<char>>>) -> Option<
    (Seq<char>, Seq<char>),
>
    decreases rules.len(),
{
    if rules.len() == 0 {
        None
    } else if type_rule_fires(tp, rules[0]) {
        Some((rules[0][0], rules[0][1]))
    } else {
        first_type_match(tp, rules.drop_first())
    }
}

/// The label pair of the first text rule that fires, in load order.
pub open spec fn first_text_match(tx: Seq<char>, rules: Seq<Seq<Seq<char>>>) -> Option<
    (Seq<char>, Seq<char>),
>
    decreases rules.len(),
{
    if rules.len() == 0 {
        None
    } else if text_rule_fires(tx, rules[0]) {
        Some((rules[0][0], rules[0][1]))
    } else {
        first_text_match(tx, rules.drop_first())
    }
}

/// The resolved label pair: the first firing type rule wins, then the
/// first firing text rule, and two empty labels when none fires.
pub open spec fn spec_category(
    tx: Seq<char>,
    tp: Seq<char>,
    rules_text: Seq<Seq<Seq<char>>>,
    rules_type: Seq<Seq<Seq<char>>>,
) -> (Seq<char>, Seq<char>) {
    match first_type_match(tp, rules_type) {
        Some(p) => p,
        None => match first_text_match(tx, rules_text) {
            Some(p) => p,
            None => (Seq::<char>::empty(), Seq::<char>::empty()),
        },
    }
}

/// Law: the type rules take priority — whenever any type rule fires, the
/// result is that of the type scan alone, whatever the text rules hold.
pub proof fn lemma_type_rules_take_priority(
    tx: Seq<char>,
    tp: Seq<char>,
    rules_text: Seq<Seq<Seq<char>>>,
    rules_type: Seq<Seq<Seq<char>>>,
)
    requires
        first_type_match(tp, rules_type) is Some,
    ensures
        Some(spec_category(tx, tp, rules_text, rules_type)) == first_type_match(tp, rules_type),
{
}

/// Resolves the label pair for one record from its text and type; returns
/// two empty strings when no rule fires.
pub fn get_category(text: &str, types: &str, categories: &Categories) -> (r: (String, String))
    requires
        categories.wf(),
    ensures
        (r.0@, r.1@) == spec_category(
            text@,
            types@,
            categories.from_text.deep_view(),
            categories.from_type.deep_view(),
        ),
{
    let ghost rules_type = categories.from_type.deep_view();
    let ghost rules_text = categories.from_text.deep_view();
    let types_l = to_lowercase(types);
    proof {
        assert(rules_type.skip(0) =~= rules_type);
    }
    let mut i: usize = 0;
    while i < categories.from_type.len()
        invariant
            categories.wf(),
            rules_type == categories.from_type.deep_view(),
            types_l@ == lower_of(types@),
            i <= rules_type.len(),
            first_type_match(types@, rules_type) == first_type_match(
                types@,
                rules_type.skip(i as int),
            ),
        decreases rules_type.len() - i,
    {
        proof {
            assert(rules_type.skip(i as int)[0] == rules_type[i as int]);
            assert(rules_type.skip(i as int).drop_first() =~= rules_type.skip(i + 1));
            assert(rules_type[i as int][0] == categories.from_type@[i as int]@[0]@);
            assert(rules_type[i as int][1] == categories.from_type@[i as int]@[1]@);
        }
        let rule = &categories.from_type[i];
        let kw = to_lowercase(rule[0].as_str());
        if str_contains(types_l.as_str(), kw.as_str()) {
            proof {
                assert(type_rule_fires(types@, rules_type[i as int]));
            }
            return (rule[0].clone(), rule[1].clone());
        }
        proof {
            assert(!type_rule_fires(types@, rules_type[i as int]));
        }
        i += 1;
    }
    proof {
        assert(rules_type.skip(rules_type.len() as int) =~= Seq::<Seq<Seq<char>>>::empty());
        assert(first_type_match(types@, rules_type) is None);
    }
    let text_l = to_lowercase(text);
    proof {
        assert(rules_text.skip(0) =~= rules_text);
    }
    let mut i: usize = 0;
    while i < categories.from_text.len()
        invariant
            categories.wf(),
            rules_text == categories.from_text.deep_view(),
            text_l@ == lower_of(text@),
            first_type_match(types@, categories.from_type.deep_view()) is None,
            rules_type == categories.from_type.deep_view(),
            i <= rules_text.len(),
            first_text_match(text@, rules_text) == first_text_match(
                text@,
                rules_text.skip(i as int),
            ),
        decreases rules_text.len() - i,
    {
        proof {
            assert(rules_text.skip(i as int)[0] == rules_text[i as int]);
            assert(rules_text.skip(i as int).drop_first() =~= rules_text.skip(i + 1));
            assert(rules_text[i as int][0] == categories.from_text@[i as int]@[0]@);
            assert(rules_text[i as int][1] == categories.from_text@[i as int]@[1]@);
        }
        let rule = &categories.from_text[i];
        let mut k: usize = 2;
        while k < rule.len()
            invariant
                rules_text == categories.from_text.deep_view(),
                text_l@ == lower_of(text@),
                i < rules_text.len(),
                first_type_match(types@, categories.from_type.deep_view()) is None,
                first_text_match(text@, rules_text) == first_text_match(
                    text@,
                    rules_text.skip(i as int),
                ),
                rule@ == categories.from_text@[i as int]@,
                rules_text[i as int].len() == rule@.len(),
                forall|j: int|
                    0 <= j < rule@.len() ==> (#[trigger] rules_text[i as int][j]) == rule@[j]@,
                2 <= k,
                forall|q: int|
                    2 <= q < k && q < rules_text[i as int].len() ==> !contains_seq(
                        lower_of(text@),
                        lower_of(#[trigger] rules_text[i as int][q]),
                    ),
            decreases rule@.len() - k,
        {
            proof {
                assert(rules_text[i as int][k as int] == categories.from_text@[i as int]@[
                    k as int]@);
            }
            let kw = to_lowercase(rule[k].as_str());
            if str_contains(text_l.as_str(), kw.as_str()) {
                proof {
                    assert(contains_seq(lower_of(text@), lower_of(rules_text[i as int][k as int])));
                    assert(text_rule_fires(text@, rules_text[i as int]));
                    assert(rules_text.skip(i as int)[0] == rules_text[i as int]);
                    assert(first_text_match(text@, rules_text.skip(i as int)) == Some(
                        (rules_text[i as int][0], rules_text[i as int][1]),
                    ));
                }
                return (rule[0].clone(), rule[1].clone());
            }
            k += 1;
        }
        proof {
            assert(!text_rule_fires(text@, rules_text[i as int]));
        }
        i += 1;
    }
    proof {
        assert(rules_text.skip(rules_text.len() as int) =~= Seq::<Seq<Seq<char>>>::empty());
        assert(first_text_match(text@, rules_text) is None);
    }
    (String::new(), String::new())
}

} // verus!
