//! From the payee and memo columns of a row to the payee and memo of a
//! transaction: the memo is cleaned, a card purchase loses the words that the
//! bank puts before the merchant, and the first rule that fits the payee
//! says who was paid.

use crate::swed::{
    foreign_currency, is_foreign_currency_tx, makecommerce, parse_makecommerce_memo,
    parse_paypal_payee, parse_paysera_memo, parse_trustly_memo, paypal_seller, paysera, text_of,
    trustly, PAYPAL_TAG, PAYSERA, TRUSTLY,
};
use crate::text::{
    after_first, all_words, chars_of, contains, has_prefix, is_word, join, joined, keep_solid,
    lemma_joined_words_ends, lemma_solid_words, lemma_tokens_hold_no_sep, lemma_tokens_of_joined,
    nth, occurs_in, piece,
    replace, replaced, same, skip_first, solid, split, starts_with, string_of, tokens, trim_start,
    trim_start_matches, without_leading, without_leading_space,
};
use vstd::prelude::*;

verus! {

/// The memo of a card purchase begins with this word.
pub const CARD_PURCHASE: &'static str = "PIRKUMS ";

/// The words that stand before the merchant in the memo of a card purchase:
/// the marker, the card, the date, the amount, the currency and a reference.
pub const LEAD_WORDS: usize = 6;

/// The same count where the amount was converted from another currency: the
/// rate and the fee add seven words.
pub const LEAD_WORDS_CONVERTED: usize = 13;

/// The payee of a row that names nobody.
pub const BANK: &'static str = "Swedbank";

/// The payee of a payment that MakeCommerce passed on.
pub const MAKECOMMERCE: &'static str = "MakeCommerce";

/// What a payee of Amazon begins with.
pub const AMAZON_TAG: &'static str = "AMZN";

/// The name that Amazon gets.
pub const AMAZON: &'static str = "Amazon";

/// The payee of a payment that SumUp took for a seller.
pub const SUMUP: &'static str = "SumUp";

/// What stands before the seller in the memo of such a payment.
pub const SUMUP_TAG: &'static str = "SumUp *";

/// What a payee of Revolut begins with.
pub const REVOLUT_TAG: &'static str = "Revolut**";

/// The name that Revolut gets.
pub const REVOLUT: &'static str = "Revolut";

/// `text` cut at every `splitter`, without the empty words and without the
/// first `n` of the others, put together again with `splitter` between them.
pub open spec fn dropped_words(text: Seq<char>, splitter: Seq<char>, n: nat) -> Seq<char> {
    joined(after_first(solid(tokens(text, splitter)), n as int), splitter)
}

fn drop_words_of(text: &[char], splitter: &[char], n: usize) -> (r: Vec<char>)
    ensures
        r@ == dropped_words(text@, splitter@, n as nat),
{
    let words = split(text, splitter);
    let full = keep_solid(&words);
    let rest = skip_first(&full, n);
    join(&rest, splitter)
}

/// Drops the first `n` words of `s`, where the words are what stands between
/// the occurrences of `splitter`, and every empty word with them.
pub fn drop_words(s: &str, splitter: &str, n: usize) -> (r: String)
    ensures
        r@ == dropped_words(s@, splitter@, n as nat),
{
    let text = chars_of(s);
    let sep = chars_of(splitter);
    let rest = drop_words_of(text.as_slice(), sep.as_slice(), n);
    string_of(rest.as_slice())
}

/// `text` without its single quotes, and then with one space for every two
/// that stand together, taken pair by pair from the left.
pub open spec fn sanitized(text: Seq<char>) -> Seq<char> {
    replaced(replaced(text, "'"@, Seq::empty()), "  "@, " "@)
}

fn unquote(text: &[char]) -> (r: Vec<char>)
    ensures
        r@ == replaced(text@, "'"@, Seq::empty()),
{
    let quote = chars_of("'");
    let nothing: Vec<char> = Vec::new();
    replace(text, quote.as_slice(), nothing.as_slice())
}

fn sanitize_of(text: &[char]) -> (r: Vec<char>)
    ensures
        r@ == sanitized(text@),
{
    let two = chars_of("  ");
    let one = chars_of(" ");
    let bare = unquote(text);
    replace(bare.as_slice(), two.as_slice(), one.as_slice())
}

/// Strips the single quotes and halves the doubled spaces.
pub fn sanitize(text: &str) -> (r: String)
    ensures
        r@ == sanitized(text@),
{
    let t = chars_of(text);
    let clean = sanitize_of(t.as_slice());
    string_of(clean.as_slice())
}

/// A memo that describes a card purchase.
pub open spec fn card_purchase(memo: Seq<char>) -> bool {
    has_prefix(memo, CARD_PURCHASE@)
}

/// Whether the memo describes a card purchase.
pub fn is_card_purchase_memo(memo: &str) -> (r: bool)
    ensures
        r == card_purchase(memo@),
{
    let m = chars_of(memo);
    let marker = chars_of(CARD_PURCHASE);
    starts_with(m.as_slice(), marker.as_slice())
}

/// How many words stand before the merchant in the memo of a card purchase.
pub open spec fn lead_words(memo: Seq<char>) -> nat {
    if foreign_currency(memo) {
        LEAD_WORDS_CONVERTED as nat
    } else {
        LEAD_WORDS as nat
    }
}

/// The memo as the rules read it: sanitized, and for a card purchase without
/// the words that stand before the merchant.
pub open spec fn cleaned(memo: Seq<char>) -> Seq<char> {
    if card_purchase(memo) {
        dropped_words(sanitized(memo), " "@, lead_words(memo))
    } else {
        sanitized(memo)
    }
}

/// The day of a card purchase as its memo gives it: the third of the words
/// that single spaces part.
pub open spec fn purchase_date(memo: Seq<char>) -> Option<Seq<char>> {
    if card_purchase(memo) {
        piece(tokens(memo, " "@), 2)
    } else {
        None
    }
}

/// The vendors that are known by the name that their payees begin with.
pub open spec fn vendor_names() -> Seq<Seq<char>> {
    seq!["AIRBNB"@, "AUTOSTAVVIETA"@, "Patreon"@, "Kindle Svcs"@]
}

/// The vendors that are known by the name that their payees begin with.
pub fn known_vendors() -> (names: Vec<&'static str>)
    ensures
        names@.len() == vendor_names().len(),
        forall|i: int| 0 <= i < names@.len() ==> names[i]@ == vendor_names()[i],
{
    let mut names: Vec<&'static str> = Vec::new();
    names.push("AIRBNB");
    names.push("AUTOSTAVVIETA");
    names.push("Patreon");
    names.push("Kindle Svcs");
    names
}

/// The first of `names`, from index `from` on, that `payee` begins with.
pub open spec fn vendor_from(payee: Seq<char>, names: Seq<Seq<char>>, from: int) -> Option<
    Seq<char>,
>
    decreases names.len() - from,
{
    if from < 0 || from >= names.len() {
        None
    } else if has_prefix(payee, names[from]) {
        Some(names[from])
    } else {
        vendor_from(payee, names, from + 1)
    }
}

/// The known vendor that `payee` begins with, the first listed if several do.
pub open spec fn vendor_of(payee: Seq<char>) -> Option<Seq<char>> {
    vendor_from(payee, vendor_names(), 0)
}

fn find_vendor(payee: &[char]) -> (r: Option<Vec<char>>)
    ensures
        vendor_of(payee@) == (match r {
            Some(name) => Some(name@),
            None => None::<Seq<char>>,
        }),
{
    let names = known_vendors();
    let mut k: usize = 0;
    while k < names.len()
        invariant
            k <= names.len(),
            names@.len() == vendor_names().len(),
            forall|i: int| 0 <= i < names@.len() ==> names[i]@ == vendor_names()[i],
            vendor_of(payee@) == vendor_from(payee@, vendor_names(), k as int),
        decreases names.len() - k,
    {
        let name = chars_of(names[k]);
        if starts_with(payee, name.as_slice()) {
            return Some(name);
        }
        k += 1;
    }
    None
}

/// The rules that say who was paid, in the order in which they are tried.
#[derive(Debug, Clone, Copy, PartialEq, Eq)]
pub enum PayeeRule {
    /// The payee is MakeCommerce: the memo names the seller.
    MakeCommerce,
    /// The payee is Trustly: the memo names the seller.
    Trustly,
    /// The payee is Paysera: the memo names the seller.
    Paysera,
    /// The payee begins with Amazon's tag.
    Amazon,
    /// The row names no payee.
    Absent,
    /// The payee begins with the name of a known vendor.
    KnownVendor,
    /// The payee is SumUp: the memo names the seller after SumUp's tag.
    SumUp,
    /// The payee begins with Revolut's tag.
    Revolut,
    /// The payee begins with PayPal's tag.
    PayPal,
    /// The payee holds a star: a vendor tag, then the seller.
    Starred,
    /// None of the others: the payee is taken as it is.
    Plain,
}

/// The rule for a payee: the first one that fits.
pub open spec fn rule_for(payee: Seq<char>) -> PayeeRule {
    if payee == MAKECOMMERCE@ {
        PayeeRule::MakeCommerce
    } else if payee == TRUSTLY@ {
        PayeeRule::Trustly
    } else if payee == PAYSERA@ {
        PayeeRule::Paysera
    } else if has_prefix(payee, AMAZON_TAG@) {
        PayeeRule::Amazon
    } else if payee.len() == 0 {
        PayeeRule::Absent
    } else if vendor_of(payee) is Some {
        PayeeRule::KnownVendor
    } else if payee == SUMUP@ {
        PayeeRule::SumUp
    } else if has_prefix(payee, REVOLUT_TAG@) {
        PayeeRule::Revolut
    } else if has_prefix(payee, PAYPAL_TAG@) {
        PayeeRule::PayPal
    } else if occurs_in(payee, "*"@) {
        PayeeRule::Starred
    } else {
        PayeeRule::Plain
    }
}

/// Finds the rule for a payee.
pub fn rule_of(payee: &str) -> (r: PayeeRule)
    ensures
        r == rule_for(payee@),
{
    let who = chars_of(payee);
    let makecommerce = chars_of(MAKECOMMERCE);
    let trustly = chars_of(TRUSTLY);
    let paysera = chars_of(PAYSERA);
    let amazon = chars_of(AMAZON_TAG);
    let sumup = chars_of(SUMUP);
    let revolut = chars_of(REVOLUT_TAG);
    let paypal = chars_of(PAYPAL_TAG);
    let star = chars_of("*");
    if same(who.as_slice(), makecommerce.as_slice()) {
        PayeeRule::MakeCommerce
    } else if same(who.as_slice(), trustly.as_slice()) {
        PayeeRule::Trustly
    } else if same(who.as_slice(), paysera.as_slice()) {
        PayeeRule::Paysera
    } else if starts_with(who.as_slice(), amazon.as_slice()) {
        PayeeRule::Amazon
    } else if who.len() == 0 {
        PayeeRule::Absent
    } else if find_vendor(who.as_slice()).is_some() {
        PayeeRule::KnownVendor
    } else if same(who.as_slice(), sumup.as_slice()) {
        PayeeRule::SumUp
    } else if starts_with(who.as_slice(), revolut.as_slice()) {
        PayeeRule::Revolut
    } else if starts_with(who.as_slice(), paypal.as_slice()) {
        PayeeRule::PayPal
    } else if contains(who.as_slice(), star.as_slice()) {
        PayeeRule::Starred
    } else {
        PayeeRule::Plain
    }
}

/// The seller in a payee that holds a star: what follows the vendor tag,
/// without single quotes and without the white space that it begins with.
pub open spec fn starred_seller(payee: Seq<char>) -> Seq<char> {
    without_leading_space(replaced(dropped_words(payee, "*"@, 1), "'"@, Seq::empty()))
}

/// Who was paid and what for, by the rule that fits the payee. `memo` is the
/// cleaned memo. The first five rules keep the memo, or take it from the
/// processor's format; under the others a memo that begins with the payee
/// says nothing new and is dropped.
pub open spec fn formatted(payee: Seq<char>, memo: Seq<char>) -> (Seq<char>, Option<Seq<char>>) {
    let kept = if has_prefix(memo, payee) {
        None
    } else {
        Some(memo)
    };
    match rule_for(payee) {
        PayeeRule::MakeCommerce => makecommerce(memo),
        PayeeRule::Trustly => trustly(memo),
        PayeeRule::Paysera => paysera(memo),
        PayeeRule::Amazon => (AMAZON@, Some(memo)),
        PayeeRule::Absent => (BANK@, Some(memo)),
        PayeeRule::KnownVendor => (vendor_of(payee)->0, kept),
        PayeeRule::SumUp => (without_leading(memo, SUMUP_TAG@), kept),
        PayeeRule::Revolut => (REVOLUT@, kept),
        PayeeRule::PayPal => (paypal_seller(payee), kept),
        PayeeRule::Starred => (starred_seller(payee), kept),
        PayeeRule::Plain => (replaced(payee, "'"@, Seq::empty()), kept),
    }
}

/// A memo that says something: an empty one is none.
pub open spec fn telling(memo: Option<Seq<char>>) -> Option<Seq<char>> {
    match memo {
        Some(text) => if text.len() > 0 {
            Some(text)
        } else {
            None
        },
        None => None,
    }
}

/// Payee and memo of a transaction, and the day of the purchase where the
/// memo gives it.
pub struct ParsedPayeeMemo {
    pub date: Option<String>,
    pub memo: Option<String>,
    pub payee: String,
}

/// What a `ParsedPayeeMemo` holds, as text.
pub struct PayeeMemo {
    pub date: Option<Seq<char>>,
    pub memo: Option<Seq<char>>,
    pub payee: Seq<char>,
}

impl View for ParsedPayeeMemo {
    type V = PayeeMemo;

    open spec fn view(&self) -> PayeeMemo {
        PayeeMemo { date: text_of(self.date), memo: text_of(self.memo), payee: self.payee@ }
    }
}

/// What the payee and memo columns of a row come to.
pub open spec fn normalized(payee: Seq<char>, memo: Seq<char>) -> PayeeMemo {
    let (name, note) = formatted(payee, cleaned(memo));
    PayeeMemo { date: purchase_date(memo), memo: telling(note), payee: name }
}

fn kept_memo(payee: &[char], memo: &[char]) -> (r: Option<String>)
    ensures
        text_of(r) == if has_prefix(memo@, payee@) {
            None
        } else {
            Some(memo@)
        },
{
    if starts_with(memo, payee) {
        None
    } else {
        Some(string_of(memo))
    }
}

fn format_by_rule(payee: &str, memo: &[char]) -> (r: (String, Option<String>))
    ensures
        (r.0@, text_of(r.1)) == formatted(payee@, memo@),
{
    let who = chars_of(payee);
    match rule_of(payee) {
        PayeeRule::MakeCommerce => {
            let text = string_of(memo);
            parse_makecommerce_memo(text.as_str())
        },
        PayeeRule::Trustly => {
            let text = string_of(memo);
            parse_trustly_memo(text.as_str())
        },
        PayeeRule::Paysera => {
            let text = string_of(memo);
            parse_paysera_memo(text.as_str())
        },
        PayeeRule::Amazon => (String::from_str(AMAZON), Some(string_of(memo))),
        PayeeRule::Absent => (String::from_str(BANK), Some(string_of(memo))),
        PayeeRule::KnownVendor => {
            let name = match find_vendor(who.as_slice()) {
                Some(vendor) => string_of(vendor.as_slice()),
                None => String::new(),
            };
            (name, kept_memo(who.as_slice(), memo))
        },
        PayeeRule::SumUp => {
            let tag = chars_of(SUMUP_TAG);
            let seller = trim_start_matches(memo, tag.as_slice());
            (string_of(seller.as_slice()), kept_memo(who.as_slice(), memo))
        },
        PayeeRule::Revolut => (String::from_str(REVOLUT), kept_memo(who.as_slice(), memo)),
        PayeeRule::PayPal => (parse_paypal_payee(payee), kept_memo(who.as_slice(), memo)),
        PayeeRule::Starred => {
            let star = chars_of("*");
            let detail = drop_words_of(who.as_slice(), star.as_slice(), 1);
            let bare = unquote(detail.as_slice());
            let seller = trim_start(bare.as_slice());
            (string_of(seller.as_slice()), kept_memo(who.as_slice(), memo))
        },
        PayeeRule::Plain => {
            let bare = unquote(who.as_slice());
            (string_of(bare.as_slice()), kept_memo(who.as_slice(), memo))
        },
    }
}

fn clean_of(memo: &str) -> (r: Vec<char>)
    ensures
        r@ == cleaned(memo@),
{
    let raw = chars_of(memo);
    let marker = chars_of(CARD_PURCHASE);
    let clean = sanitize_of(raw.as_slice());
    if starts_with(raw.as_slice(), marker.as_slice()) {
        let space = chars_of(" ");
        let lead = if is_foreign_currency_tx(memo) {
            LEAD_WORDS_CONVERTED
        } else {
            LEAD_WORDS
        };
        drop_words_of(clean.as_slice(), space.as_slice(), lead)
    } else {
        clean
    }
}

fn purchase_date_of(memo: &str) -> (r: Option<String>)
    ensures
        text_of(r) == purchase_date(memo@),
{
    let raw = chars_of(memo);
    let marker = chars_of(CARD_PURCHASE);
    if starts_with(raw.as_slice(), marker.as_slice()) {
        let space = chars_of(" ");
        let words = split(raw.as_slice(), space.as_slice());
        match nth(&words, 2) {
            Some(day) => Some(string_of(day.as_slice())),
            None => None,
        }
    } else {
        None
    }
}

impl ParsedPayeeMemo {
    /// A memo that is there is not empty.
    pub open spec fn wf(&self) -> bool {
        self.memo matches Some(text) ==> text@.len() > 0
    }

    /// Reads the payee and memo columns of a row.
    pub fn from_str(payee: &str, m: &str) -> (r: ParsedPayeeMemo)
        ensures
            r@ == normalized(payee@, m@),
            r.wf(),
    {
        let memo = clean_of(m);
        let (name, note) = format_by_rule(payee, memo.as_slice());
        let told = match note {
            Some(text) => if text.as_str().is_empty() {
                None
            } else {
                Some(text)
            },
            None => None,
        };
        ParsedPayeeMemo { date: purchase_date_of(m), memo: told, payee: name }
    }
}

/// Of words that stand with one `sep` between each two, dropping the first
/// `n` leaves the others as they stand.
pub proof fn lemma_dropped_words_of_joined(words: Seq<Seq<char>>, sep: char, n: nat)
    requires
        all_words(words, sep),
    ensures
        dropped_words(joined(words, seq![sep]), seq![sep], n) == joined(
            after_first(words, n as int),
            seq![sep],
        ),
{
    if words.len() == 0 {
        let nonempty = |p: Seq<char>| p.len() > 0;
        let none = Seq::<Seq<char>>::empty();
        none.lemma_all_neg_filter_empty(nonempty);
        Seq::lemma_filter_push(none, Seq::<char>::empty(), nonempty);
        assert(none.push(Seq::<char>::empty()) =~= seq![Seq::<char>::empty()]);
        assert(solid(tokens(joined(words, seq![sep]), seq![sep])) == none);
        assert(after_first(none, n as int) =~= none);
        assert(after_first(words, n as int) =~= none);
    } else {
        assert forall|i: int| 0 <= i < words.len() implies !(#[trigger] words[i]).contains(
            sep,
        ) by {
            assert(is_word(words[i], sep));
        }
        lemma_tokens_of_joined(words, sep);
        lemma_solid_words(words, sep);
    }
}

/// The memo of a card purchase is words with single spaces between them, the
/// merchant behind the leading ones. Dropping the leading words leaves the
/// merchant's name as the memo has it, and no white space before or after it.
pub proof fn lemma_card_purchase_merchant(lead: Seq<Seq<char>>, merchant: Seq<Seq<char>>)
    requires
        lead.len() == LEAD_WORDS,
        all_words(lead, ' '),
        all_words(merchant, ' '),
    ensures
        dropped_words(joined(lead + merchant, " "@), " "@, LEAD_WORDS as nat) == joined(
            merchant,
            " "@,
        ),
        merchant.len() > 0 ==> {
            let name = joined(merchant, " "@);
            name.len() > 0 && name.first() != ' ' && name.last() != ' '
        },
{
    reveal_strlit(" ");
    assert(" "@ =~= seq![' ']);
    let words = lead + merchant;
    assert forall|i: int| 0 <= i < words.len() implies is_word(#[trigger] words[i], ' ') by {
        if i < lead.len() {
            assert(words[i] == lead[i]);
        } else {
            assert(words[i] == merchant[i - lead.len()]);
        }
    }
    lemma_dropped_words_of_joined(words, ' ', LEAD_WORDS as nat);
    assert(after_first(words, LEAD_WORDS as int) =~= merchant);
    if merchant.len() > 0 {
        lemma_joined_words_ends(merchant, ' ');
        let first = merchant.first();
        let last = merchant.last();
        assert(is_word(first, ' ') && is_word(last, ' '));
        assert(first.contains(first.first()));
        assert(last.contains(last.last()));
    }
}

/// What is left after words were dropped, cut at the splitter again, has no
/// empty word in it: dropping words leaves no splitter at either end and no
/// two of them together. This is for a splitter of one character.
pub proof fn lemma_dropped_words_are_words(text: Seq<char>, sep: char, n: nat)
    ensures
        ({
            let rest = dropped_words(text, seq![sep], n);
            rest.len() == 0 || all_words(tokens(rest, seq![sep]), sep)
        }),
{
    let nonempty = |p: Seq<char>| p.len() > 0;
    let cut = tokens(text, seq![sep]);
    let full = solid(cut);
    let kept = after_first(full, n as int);
    lemma_tokens_hold_no_sep(text, sep);
    assert forall|i: int| 0 <= i < full.len() implies is_word(#[trigger] full[i], sep) by {
        cut.lemma_filter_pred(nonempty, i);
        assert(full.contains(full[i]));
        cut.lemma_filter_contains_rev(nonempty, full[i]);
        let j = choose|j: int| 0 <= j < cut.len() && cut[j] == full[i];
        assert(!cut[j].contains(sep));
    }
    assert forall|i: int| 0 <= i < kept.len() implies is_word(#[trigger] kept[i], sep) by {
        assert(kept[i] == full[i + n]);
    }
    if kept.len() > 0 {
        assert forall|i: int| 0 <= i < kept.len() implies !(#[trigger] kept[i]).contains(sep) by {
            assert(is_word(kept[i], sep));
        }
        lemma_tokens_of_joined(kept, sep);
    }
}

} // verus!
