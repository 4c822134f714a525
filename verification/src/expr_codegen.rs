//! Emits the source of the two procedures of a node.
use vstd::prelude::*;
use vstd::string::*;
use crate::error::{text_of, texts_of};
use crate::expr::{lemma_choice_model, lemma_sequence_model, models_of, ExprModel, FPestExpr};
use crate::generator::{condition_code, condition_text, Generator, Template};
use crate::ids::{id_text, registered, IdRegistry};
use crate::multi_replace::{multi_replace, multi_replaced, patterns_of, values_of};
use crate::raw::bytes_of;
use crate::semantics::{builtin_of, Builtin};
use crate::text::{
    concat3,
    debug_string,
    debug_text,
    decimal,
    decimal_text,
    push_char,
    replace,
    replaced,
};
use crate::tree_inspection::{contains_idents, touches_idents};

verus! {

/// An expression in the notation of grammars, with byte tests in the
/// notation of the generator.
pub open spec fn pest_text<G: Generator>(e: ExprModel) -> Seq<char>
    decreases e,
{
    match e {
        ExprModel::Str(s) => debug_text(s),
        ExprModel::CharacterCondition(c) => "("@ + condition_text::<G>(c) + ")"@,
        ExprModel::Insens(s) => "^"@ + debug_text(s),
        ExprModel::Ident(i) => i,
        ExprModel::NegPred(inner) => "!"@ + pest_text::<G>(*inner),
        ExprModel::Sequence(items) => "("@ + pest_list::<G>(items, " ~ "@) + ")"@,
        ExprModel::Choice(items) => "("@ + pest_list::<G>(items, " | "@) + ")"@,
        ExprModel::Opt(inner) => pest_text::<G>(*inner) + "?"@,
        ExprModel::Rep(inner, empty_accepted) => if empty_accepted {
            pest_text::<G>(*inner) + "*"@
        } else {
            pest_text::<G>(*inner) + "+"@
        },
    }
}

/// The expressions of a list in the notation of grammars, with the
/// separator between them.
pub open spec fn pest_list<G: Generator>(items: Seq<ExprModel>, separator: Seq<char>) -> Seq<char>
    decreases items,
{
    if items.len() == 0 {
        Seq::empty()
    } else if items.len() == 1 {
        pest_text::<G>(items[0])
    } else {
        pest_list::<G>(items.drop_last(), separator) + separator + pest_text::<G>(items.last())
    }
}

/// The expressions of a list in the notation of grammars, with the
/// separator between them.
#[verifier::loop_isolation(false)]
pub fn to_pest_list<G: Generator>(items: &Vec<FPestExpr>, separator: &str) -> (r: String)
    ensures
        r@ == pest_list::<G>(models_of(items@), separator@),
    decreases items, 0nat,
{
    let mut r = String::new();
    let mut i: usize = 0;
    let ghost all = models_of(items@);
    while i < items.len()
        invariant
            i <= items.len(),
            r@ == pest_list::<G>(all.take(i as int), separator@),
        decreases items.len() - i,
    {
        proof {
            assert(decreases_to!(*items => items[i as int]));
        }
        let part = to_pest::<G>(&items[i]);
        if i > 0 {
            r.append(separator);
        }
        r.append(part.as_str());
        proof {
            let now = all.take(i + 1);
            assert(now.drop_last() =~= all.take(i as int));
            assert(now.last() == items@[i as int]@);
            if i == 0 {
                assert(Seq::<char>::empty() + part@ =~= part@);
            }
        }
        i += 1;
    }
    assert(all.take(items.len() as int) =~= all);
    r
}

/// An expression in the notation of grammars, with byte tests in the
/// notation of the generator.
pub fn to_pest<G: Generator>(expr: &FPestExpr) -> (r: String)
    ensures
        r@ == pest_text::<G>(expr@),
    decreases expr, 1nat,
{
    broadcast use {lemma_sequence_model, lemma_choice_model};

    match expr {
        FPestExpr::Str(s) => debug_string(s.as_str()),
        FPestExpr::CharacterCondition(c) => {
            let mut r = String::from_str("(");
            r.append(condition_code::<G>(c).as_str());
            r.append(")");
            r
        },
        FPestExpr::Insens(s) => {
            let mut r = String::from_str("^");
            r.append(debug_string(s.as_str()).as_str());
            r
        },
        FPestExpr::Ident(i) => i.clone(),
        FPestExpr::NegPred(inner) => {
            let mut r = String::from_str("!");
            r.append(to_pest::<G>(inner).as_str());
            r
        },
        FPestExpr::Sequence(items) => {
            let mut r = String::from_str("(");
            r.append(to_pest_list::<G>(items, " ~ ").as_str());
            r.append(")");
            r
        },
        FPestExpr::Choice(items) => {
            let mut r = String::from_str("(");
            r.append(to_pest_list::<G>(items, " | ").as_str());
            r.append(")");
            r
        },
        FPestExpr::Opt(inner) => {
            let mut r = to_pest::<G>(inner);
            r.append("?");
            r
        },
        FPestExpr::Rep(inner, empty_accepted) => {
            let mut r = to_pest::<G>(inner);
            if *empty_accepted {
                r.append("*");
            } else {
                r.append("+");
            }
            r
        },
    }
}

/// The hint for an item of a sequence that fails after a repetition or a
/// rule: that the one before it may have ended too early.
pub open spec fn hint_text<G: Generator>(items: Seq<ExprModel>, k: nat) -> Option<Seq<char>> {
    if k == 0 || k > items.len() {
        None
    } else {
        match items[k - 1] {
            ExprModel::Rep(_, _) => Some(
                "following repetition "@ + pest_text::<G>(items[k - 1]) + " which ended"@,
            ),
            ExprModel::Ident(name) => if builtin_of(name) is None {
                Some("following rule "@ + name + " which ended"@)
            } else {
                None
            },
            _ => None,
        }
    }
}

/// The hint for the item `k` of a sequence: where the item before it is a
/// repetition or a rule, that this one ended.
pub fn hint<G: Generator>(items: &Vec<FPestExpr>, k: usize) -> (r: Option<String>)
    ensures
        text_of(r) == hint_text::<G>(models_of(items@), k as nat),
{
    if k == 0 || k > items.len() {
        return None;
    }
    assert(models_of(items@)[k - 1] == items@[k - 1]@);
    match &items[k - 1] {
        FPestExpr::Rep(_, _) => {
            let what = to_pest::<G>(&items[k - 1]);
            Some(concat3("following repetition ", what.as_str(), " which ended"))
        },
        FPestExpr::Ident(name) => {
            if Builtin::from_name(name.as_str()).is_none() {
                Some(concat3("following rule ", name.as_str(), " which ended"))
            } else {
                None
            }
        },
        _ => None,
    }
}

/// The character with the case of an ASCII letter inverted.
pub open spec fn flipped_char(c: char) -> char {
    if 'A' <= c && c <= 'Z' {
        ((c as u8) + 32) as u8 as char
    } else if 'a' <= c && c <= 'z' {
        ((c as u8) - 32) as u8 as char
    } else {
        c
    }
}

/// The text with the case of every ASCII letter inverted.
pub open spec fn inverted_text(s: Seq<char>) -> Seq<char> {
    Seq::new(s.len(), |i: int| flipped_char(s[i]))
}

/// The text with the case of every ASCII letter inverted.
pub fn inverted(value: &str) -> (r: String)
    ensures
        r@ == inverted_text(value@),
{
    let n = value.unicode_len();
    let mut r = String::new();
    let mut i: usize = 0;
    while i < n
        invariant
            n == value@.len(),
            i <= n,
            r@ == inverted_text(value@).subrange(0, i as int),
        decreases n - i,
    {
        let c = value.get_char(i);
        let flipped = if 'A' <= c && c <= 'Z' {
            ((c as u8) + 32) as char
        } else if 'a' <= c && c <= 'z' {
            ((c as u8) - 32) as char
        } else {
            c
        };
        push_char(&mut r, flipped);
        i += 1;
        assert(r@ =~= inverted_text(value@).subrange(0, i as int));
    }
    assert(inverted_text(value@).subrange(0, n as int) =~= inverted_text(value@));
    r
}

/// The word that hands the label list on, where a procedure takes it.
pub open spec fn flag(on: bool) -> Seq<char> {
    if on {
        "idents"@
    } else {
        ""@
    }
}

/// The parameter for the label list, where a procedure takes it.
pub open spec fn signature(on: bool) -> Seq<char> {
    if on {
        "idents: &mut Vec<(Ident, usize)>"@
    } else {
        ""@
    }
}

/// The registry after the expressions of a list were named, one after
/// the other.
pub open spec fn registered_all(keys: Seq<ExprModel>, items: Seq<ExprModel>) -> Seq<ExprModel>
    decreases items.len(),
{
    if items.len() == 0 {
        keys
    } else {
        registered(registered_all(keys, items.drop_last()), items.last())
    }
}

/// The names of the expressions of a list, named one after the other.
pub open spec fn ids_of(keys: Seq<ExprModel>, items: Seq<ExprModel>) -> Seq<Seq<char>> {
    Seq::new(items.len(), |i: int| id_text(registered_all(keys, items.take(i)), items[i]))
}

/// For each expression of a list, the word that hands the label list on.
pub open spec fn flags_of(items: Seq<ExprModel>, has_whitespace: bool) -> Seq<Seq<char>> {
    Seq::new(items.len(), |i: int| flag(touches_idents(items[i], has_whitespace)))
}

/// The numbers below `n`, in decimal digits.
pub open spec fn numbers(n: nat) -> Seq<Seq<char>> {
    Seq::new(n, |i: int| decimal_text(i as nat))
}

/// The source that attaches the hint of an item of a sequence; empty
/// where the item has none.
pub open spec fn hint_code<G: Generator>(items: Seq<ExprModel>, k: nat) -> Seq<char> {
    match hint_text::<G>(items, k) {
        Some(h) => ".with_note(r#\""@ + h + "\"#)"@,
        None => ""@,
    }
}

/// For each expression of a list, the source that attaches its hint.
pub open spec fn hints_of<G: Generator>(items: Seq<ExprModel>) -> Seq<Seq<char>> {
    Seq::new(items.len(), |i: int| hint_code::<G>(items, i as nat))
}

/// A template with the name of the expression and its notation filled
/// in, and with the parameter for the label list and the word that hands
/// the list on, where the procedures of the expression take the list.
pub open spec fn headed(
    template: Seq<char>,
    id: Seq<char>,
    notation: Seq<char>,
    takes: bool,
) -> Seq<char> {
    replaced(
        replaced(
            replaced(replaced(template, "expr_id"@, id), "expr_pest"@, notation),
            "formatted_idents"@,
            signature(takes),
        ),
        "own_idents"@,
        flag(takes),
    )
}

/// A template with the lines that work on the label list switched on,
/// where the procedure takes the list.
pub open spec fn enabled(text: Seq<char>, on: bool) -> Seq<char> {
    if on {
        replaced(text, "//IDENTS "@, ""@)
    } else {
        text
    }
}

/// The registry after the source of an expression was emitted: the
/// expression has its name, and so have the expressions directly below
/// it whose procedures it calls.
pub open spec fn keys_after(keys: Seq<ExprModel>, e: ExprModel) -> Seq<ExprModel> {
    let named = registered(keys, e);
    match e {
        ExprModel::Choice(items) => registered_all(named, items),
        ExprModel::Sequence(items) => registered_all(named, items),
        ExprModel::Rep(inner, _) => match *inner {
            ExprModel::CharacterCondition(_) => named,
            _ => registered(named, *inner),
        },
        ExprModel::Opt(inner) => registered(named, *inner),
        ExprModel::NegPred(inner) => registered(named, *inner),
        _ => named,
    }
}

/// The source of the two procedures of an expression: the template of
/// its kind, with the name of the expression, its notation, and what
/// else the kind needs filled in.
pub open spec fn code_text<G: Generator>(
    keys: Seq<ExprModel>,
    e: ExprModel,
    has_whitespace: bool,
) -> Seq<char> {
    let id = id_text(keys, e);
    let named = registered(keys, e);
    let takes = touches_idents(e, has_whitespace);
    let notation = pest_text::<G>(e);
    match e {
        ExprModel::Ident(name) => replaced(G::ident_text(name), "expr_id"@, id),
        ExprModel::CharacterCondition(c) => replaced(
            headed(G::template(Template::ExprCharacter), id, notation, takes),
            "character_condition"@,
            condition_text::<G>(c),
        ),
        ExprModel::Choice(items) => enabled(
            multi_replaced(
                headed(G::template(Template::ExprChoice), id, notation, takes),
                seq!["choice_item_id"@, "choice_idents"@],
                seq![ids_of(named, items), flags_of(items, has_whitespace)],
                items.len(),
            ),
            takes,
        ),
        ExprModel::Str(value) => replaced(
            replaced(
                replaced(G::template(Template::ExprStr), "expr_id"@, id),
                "expr_pest"@,
                notation,
            ),
            "expr_str"@,
            debug_text(value),
        ),
        ExprModel::Sequence(items) => {
            let filled = multi_replaced(
                headed(G::template(Template::ExprSeq), id, notation, takes),
                seq!["seq_item_id"@, "seq_idents"@, "seq_n"@, "seq_hint"@],
                seq![
                    ids_of(named, items),
                    flags_of(items, has_whitespace),
                    numbers(items.len()),
                    hints_of::<G>(items),
                ],
                items.len(),
            );
            enabled(
                if has_whitespace {
                    replaced(filled, "//WSP"@, " "@)
                } else {
                    filled
                },
                takes,
            )
        },
        ExprModel::Rep(inner, empty_accepted) => match *inner {
            ExprModel::CharacterCondition(c) => {
                let filled = replaced(
                    headed(G::template(Template::ExprRepCharacter), id, notation, takes),
                    "character_condition"@,
                    condition_text::<G>(c),
                );
                if !empty_accepted {
                    replaced(filled, "//NON-EMPTY"@, ""@)
                } else {
                    filled
                }
            },
            _ => {
                let filled = replaced(
                    replaced(
                        headed(G::template(Template::ExprRep), id, notation, takes),
                        "inner_eid"@,
                        id_text(named, *inner),
                    ),
                    "inner_idents"@,
                    flag(touches_idents(*inner, has_whitespace)),
                );
                let spaced = if has_whitespace {
                    replaced(filled, "//WSP"@, ""@)
                } else {
                    filled
                };
                enabled(
                    if !empty_accepted {
                        replaced(spaced, "//NON-EMPTY"@, ""@)
                    } else {
                        spaced
                    },
                    takes,
                )
            },
        },
        ExprModel::Opt(inner) => enabled(
            replaced(
                replaced(
                    headed(G::template(Template::ExprOpt), id, notation, takes),
                    "inner_eid"@,
                    id_text(named, *inner),
                ),
                "inner_idents"@,
                flag(touches_idents(*inner, has_whitespace)),
            ),
            takes,
        ),
        ExprModel::NegPred(inner) => enabled(
            replaced(
                replaced(
                    replaced(
                        headed(G::template(Template::ExprNeg), id, notation, takes),
                        "inner_eid"@,
                        id_text(named, *inner),
                    ),
                    "inner_idents"@,
                    flag(touches_idents(*inner, has_whitespace)),
                ),
                "inner_pest"@,
                pest_text::<G>(*inner),
            ),
            takes,
        ),
        ExprModel::Insens(value) => replaced(
            replaced(
                replaced(
                    replaced(
                        replaced(G::template(Template::ExprInsens), "expr_id"@, id),
                        "expr_pest"@,
                        notation,
                    ),
                    "expr_str"@,
                    debug_text(value),
                ),
                "expr_inv_str"@,
                debug_text(inverted_text(value)),
            ),
            "expr_len_str"@,
            decimal_text((bytes_of(value).len() as usize) as nat),
        ),
    }
}

fn flag_for(on: bool) -> (r: &'static str)
    ensures
        r@ == flag(on),
{
    if on {
        "idents"
    } else {
        ""
    }
}

fn signature_for(on: bool) -> (r: &'static str)
    ensures
        r@ == signature(on),
{
    if on {
        "idents: &mut Vec<(Ident, usize)>"
    } else {
        ""
    }
}

fn head(template: &str, id: &str, notation: &str, takes: bool) -> (r: String)
    ensures
        r@ == headed(template@, id@, notation@, takes),
{
    let code = replace(template, "expr_id", id);
    let code = replace(code.as_str(), "expr_pest", notation);
    let code = replace(code.as_str(), "formatted_idents", signature_for(takes));
    replace(code.as_str(), "own_idents", flag_for(takes))
}

fn enable(text: String, on: bool) -> (r: String)
    ensures
        r@ == enabled(text@, on),
{
    if on {
        replace(text.as_str(), "//IDENTS ", "")
    } else {
        text
    }
}

/// The names of the expressions of a list, named one after the other.
pub fn ids_for(ids: &mut IdRegistry, items: &Vec<FPestExpr>) -> (r: Vec<String>)
    ensures
        texts_of(r@) == ids_of(old(ids)@, models_of(items@)),
        final(ids)@ == registered_all(old(ids)@, models_of(items@)),
{
    let ghost all = models_of(items@);
    let mut r: Vec<String> = Vec::new();
    let mut i: usize = 0;
    assert(all.take(0) =~= Seq::<ExprModel>::empty());
    while i < items.len()
        invariant
            i <= items.len(),
            r@.len() == i,
            all == models_of(items@),
            ids@ == registered_all(old(ids)@, all.take(i as int)),
            forall|j: int|
                0 <= j < i ==> (#[trigger] r@[j])@ == id_text(
                    registered_all(old(ids)@, all.take(j)),
                    all[j],
                ),
        decreases items.len() - i,
    {
        proof {
            assert(all.take(i + 1).drop_last() =~= all.take(i as int));
            assert(all.take(i + 1).last() == items@[i as int]@);
        }
        r.push(ids.id(&items[i]));
        i += 1;
    }
    assert(all.take(items.len() as int) =~= all);
    assert(texts_of(r@) =~= ids_of(old(ids)@, all));
    r
}

fn flags_for(items: &Vec<FPestExpr>, has_whitespace: bool) -> (r: Vec<String>)
    ensures
        texts_of(r@) == flags_of(models_of(items@), has_whitespace),
{
    let mut r: Vec<String> = Vec::new();
    let mut i: usize = 0;
    while i < items.len()
        invariant
            i <= items.len(),
            r@.len() == i,
            forall|j: int|
                0 <= j < i ==> (#[trigger] r@[j])@ == flag(
                    touches_idents(items@[j]@, has_whitespace),
                ),
        decreases items.len() - i,
    {
        r.push(String::from_str(flag_for(contains_idents(&items[i], has_whitespace))));
        i += 1;
    }
    assert(texts_of(r@) =~= flags_of(models_of(items@), has_whitespace));
    r
}

fn numbers_for(n: usize) -> (r: Vec<String>)
    ensures
        texts_of(r@) == numbers(n as nat),
{
    let mut r: Vec<String> = Vec::new();
    let mut i: usize = 0;
    while i < n
        invariant
            i <= n,
            r@.len() == i,
            forall|j: int| 0 <= j < i ==> (#[trigger] r@[j])@ == decimal_text(j as nat),
        decreases n - i,
    {
        r.push(decimal(i));
        i += 1;
    }
    assert(texts_of(r@) =~= numbers(n as nat));
    r
}

fn hints_for<G: Generator>(items: &Vec<FPestExpr>) -> (r: Vec<String>)
    ensures
        texts_of(r@) == hints_of::<G>(models_of(items@)),
{
    let mut r: Vec<String> = Vec::new();
    let mut i: usize = 0;
    while i < items.len()
        invariant
            i <= items.len(),
            r@.len() == i,
            forall|j: int|
                0 <= j < i ==> (#[trigger] r@[j])@ == hint_code::<G>(models_of(items@), j as nat),
        decreases items.len() - i,
    {
        let found = hint::<G>(items, i);
        let text = match &found {
            Some(h) => concat3(".with_note(r#\"", h.as_str(), "\"#)"),
            None => String::from_str(""),
        };
        assert(text@ == hint_code::<G>(models_of(items@), i as nat));
        r.push(text);
        i += 1;
    }
    assert(texts_of(r@) =~= hints_of::<G>(models_of(items@)));
    r
}

/// Emits the source of the two procedures of an expression.
///
/// The expression gets its name from the registry, and so do the
/// expressions directly below it whose procedures it calls. The template
/// of its kind is filled with these names, with the notation of the
/// expression, with the parameter for the label list where the procedures
/// take it, and with what else the kind needs.
pub fn code<G: Generator>(expr: &FPestExpr, ids: &mut IdRegistry, has_whitespace: bool) -> (r:
    String)
    ensures
        r@ == code_text::<G>(old(ids)@, expr@, has_whitespace),
        final(ids)@ == keys_after(old(ids)@, expr@),
{
    broadcast use {lemma_sequence_model, lemma_choice_model};

    let id = ids.id(expr);
    let takes = contains_idents(expr, has_whitespace);
    let hr_expr = to_pest::<G>(expr);
    match expr {
        FPestExpr::Ident(ident) => {
            let code = G::ident(ident.as_str());
            replace(code.as_str(), "expr_id", id.as_str())
        },
        FPestExpr::CharacterCondition(condition) => {
            let code = head(
                G::pattern_expr_character(),
                id.as_str(),
                hr_expr.as_str(),
                takes,
            );
            replace(
                code.as_str(),
                "character_condition",
                condition_code::<G>(condition).as_str(),
            )
        },
        FPestExpr::Choice(items) => {
            let code = head(
                G::pattern_expr_choice(),
                id.as_str(),
                hr_expr.as_str(),
                takes,
            );
            let mut values: Vec<(&'static str, Vec<String>)> = Vec::new();
            let names = ids_for(ids, items);
            let flags = flags_for(items, has_whitespace);
            assert(texts_of(names@).len() == names@.len());
            assert(texts_of(flags@).len() == flags@.len());
            values.push(("choice_item_id", names));
            values.push(("choice_idents", flags));
            proof {
                let named = registered(old(ids)@, expr@);
                let all = models_of(items@);
                assert(patterns_of(values@) =~= seq!["choice_item_id"@, "choice_idents"@]);
                assert(values_of(values@) =~= seq![
                    ids_of(named, all),
                    flags_of(all, has_whitespace),
                ]);
            }
            enable(multi_replace(code, values), takes)
        },
        FPestExpr::Str(value) => {
            let code = replace(G::pattern_expr_str(), "expr_id", id.as_str());
            let code = replace(code.as_str(), "expr_pest", hr_expr.as_str());
            replace(code.as_str(), "expr_str", debug_string(value.as_str()).as_str())
        },
        FPestExpr::Sequence(items) => {
            let code = head(
                G::pattern_expr_seq(),
                id.as_str(),
                hr_expr.as_str(),
                takes,
            );
            let mut values: Vec<(&'static str, Vec<String>)> = Vec::new();
            let names = ids_for(ids, items);
            let flags = flags_for(items, has_whitespace);
            let places = numbers_for(items.len());
            let hints = hints_for::<G>(items);
            assert(texts_of(names@).len() == names@.len());
            assert(texts_of(flags@).len() == flags@.len());
            assert(texts_of(places@).len() == places@.len());
            assert(texts_of(hints@).len() == hints@.len());
            values.push(("seq_item_id", names));
            values.push(("seq_idents", flags));
            values.push(("seq_n", places));
            values.push(("seq_hint", hints));
            proof {
                let named = registered(old(ids)@, expr@);
                let all = models_of(items@);
                assert(patterns_of(values@) =~= seq![
                    "seq_item_id"@,
                    "seq_idents"@,
                    "seq_n"@,
                    "seq_hint"@,
                ]);
                assert(values_of(values@) =~= seq![
                    ids_of(named, all),
                    flags_of(all, has_whitespace),
                    numbers(all.len()),
                    hints_of::<G>(all),
                ]);
            }
            let mut code = multi_replace(code, values);
            if has_whitespace {
                code = replace(code.as_str(), "//WSP", " ");
            }
            enable(code, takes)
        },
        FPestExpr::Rep(inner, empty_accepted) => {
            if let FPestExpr::CharacterCondition(condition) = &**inner {
                assert(inner@ == ExprModel::CharacterCondition(*condition));
                let code = head(
                    G::pattern_expr_rep_character(),
                    id.as_str(),
                    hr_expr.as_str(),
                    takes,
                );
                let mut code = replace(
                    code.as_str(),
                    "character_condition",
                    condition_code::<G>(condition).as_str(),
                );
                if !*empty_accepted {
                    code = replace(code.as_str(), "//NON-EMPTY", "");
                }
                return code;
            }
            assert(!(inner@ is CharacterCondition));
            let code = head(
                G::pattern_expr_rep(),
                id.as_str(),
                hr_expr.as_str(),
                takes,
            );
            let code = replace(code.as_str(), "inner_eid", ids.id(inner).as_str());
            let mut code = replace(
                code.as_str(),
                "inner_idents",
                flag_for(contains_idents(inner, has_whitespace)),
            );
            if has_whitespace {
                code = replace(code.as_str(), "//WSP", "");
            }
            if !*empty_accepted {
                code = replace(code.as_str(), "//NON-EMPTY", "");
            }
            enable(code, takes)
        },
        FPestExpr::Opt(inner) => {
            let code = head(
                G::pattern_expr_opt(),
                id.as_str(),
                hr_expr.as_str(),
                takes,
            );
            let code = replace(code.as_str(), "inner_eid", ids.id(inner).as_str());
            let code = replace(
                code.as_str(),
                "inner_idents",
                flag_for(contains_idents(inner, has_whitespace)),
            );
            enable(code, takes)
        },
        FPestExpr::NegPred(inner) => {
            let code = head(
                G::pattern_expr_neg(),
                id.as_str(),
                hr_expr.as_str(),
                takes,
            );
            let code = replace(code.as_str(), "inner_eid", ids.id(inner).as_str());
            let code = replace(
                code.as_str(),
                "inner_idents",
                flag_for(contains_idents(inner, has_whitespace)),
            );
            let code = replace(code.as_str(), "inner_pest", to_pest::<G>(inner).as_str());
            enable(code, takes)
        },
        FPestExpr::Insens(value) => {
            let inverted_value = inverted(value.as_str());
            let code = replace(G::pattern_expr_insens(), "expr_id", id.as_str());
            let code = replace(code.as_str(), "expr_pest", hr_expr.as_str());
            let code = replace(code.as_str(), "expr_str", debug_string(value.as_str()).as_str());
            let code = replace(
                code.as_str(),
                "expr_inv_str",
                debug_string(inverted_value.as_str()).as_str(),
            );
            replace(code.as_str(), "expr_len_str", decimal(value.as_str().len()).as_str())
        },
    }
}

} // verus!
