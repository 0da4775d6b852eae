//! A locale's identity and its parsed collations.
use vstd::prelude::*;
use crate::collation_rules::{cldr, tailoring, Collation, CollationRulesView};
use crate::ldml::{self, LDML};
use crate::text::{chars_of, string_of};

verus! {

/// A locale: its identity and its collations, with their rules parsed.
#[derive(Debug, PartialEq)]
pub struct Locale {
    pub identity: Identity,
    pub collations: Vec<Collation>,
}

/// Version, language and optional territory of a locale.
#[derive(Debug, PartialEq)]
pub struct Identity {
    pub version: String,
    pub language: String,
    pub territory: Option<String>,
}

/// Why a locale could not be read.
#[derive(Debug, PartialEq, Eq, Clone, Copy)]
pub enum Error {
    /// The rules of a collation do not parse.
    RuleParseError,
    /// The document is not well-formed LDML.
    XMLError,
}

/// The rule strings of a collation, concatenated with nothing between them.
pub open spec fn joined(rules: Seq<String>) -> Seq<char>
    decreases rules.len(),
{
    if rules.len() == 0 {
        Seq::empty()
    } else {
        joined(rules.drop_last()) + rules.last()@
    }
}

/// Whether every collation's joined rules parse.
pub open spec fn all_parse(cs: Seq<ldml::Collation>) -> bool {
    forall|i: int| 0 <= i < cs.len() ==> #[trigger] tailoring(joined(cs[i].rules@)) is Ok
}

/// `c` is `d` with its rules parsed.
pub open spec fn parsed_from(c: Collation, d: ldml::Collation) -> bool {
    &&& c.kind@ == d.kind@
    &&& tailoring(joined(d.rules@)) == Ok::<CollationRulesView, int>(c.rules@)
}

fn join(rules: &Vec<String>) -> (r: Vec<char>)
    ensures
        r@ == joined(rules@),
{
    let mut out: Vec<char> = Vec::new();
    let mut i: usize = 0;
    while i < rules.len()
        invariant
            i <= rules.len(),
            out@ == joined(rules@.take(i as int)),
        decreases rules.len() - i,
    {
        let mut cs = chars_of(rules[i].as_str());
        assert(rules@.take(i + 1).drop_last() =~= rules@.take(i as int));
        out.append(&mut cs);
        i = i + 1;
    }
    assert(rules@.take(i as int) =~= rules@);
    out
}

impl Locale {
    /// The locale of an LDML document: its identity, and each collation with
    /// its rule strings concatenated and parsed. Fails with `RuleParseError`
    /// when the rules of any collation do not parse.
    pub fn try_from(ldml: LDML) -> (r: Result<Locale, Error>)
        ensures
            r is Ok <==> all_parse(ldml.collations.collation@),
            r matches Err(e) ==> e == Error::RuleParseError,
            r matches Ok(l) ==> {
                &&& l.identity.version@ == ldml.identity.version.number@
                &&& l.identity.language@ == ldml.identity.language.kind@
                &&& (l.identity.territory matches Some(t) <==> ldml.identity.territory is Some)
                &&& (l.identity.territory matches Some(t) ==> t@
                    == ldml.identity.territory->0.kind@)
                &&& l.collations@.len() == ldml.collations.collation@.len()
                &&& forall|i: int|
                    0 <= i < l.collations@.len() ==> parsed_from(
                        #[trigger] l.collations@[i],
                        ldml.collations.collation@[i],
                    )
            },
    {
        let LDML { identity, collations } = ldml;
        let territory = match identity.territory {
            Some(t) => Some(t.kind),
            None => None,
        };
        let identity = Identity {
            version: identity.version.number,
            language: identity.language.kind,
            territory,
        };
        let ghost source = collations.collation@;
        let mut out: Vec<Collation> = Vec::new();
        for c in it: collations.collation
            invariant
                it.seq() == source,
                source == ldml.collations.collation@,
                out@.len() == it.index(),
                forall|k: int| 0 <= k < it.index() ==> #[trigger] tailoring(joined(source[k].rules@)) is Ok,
                forall|k: int| 0 <= k < out@.len() ==> parsed_from(#[trigger] out@[k], source[k]),
        {
            let text = join(&c.rules);
            let s = string_of(text.as_slice());
            match cldr(s.as_str()) {
                Ok(rules) => {
                    let ghost d = c;
                    let item = Collation { kind: c.kind, rules };
                    assert(parsed_from(item, d));
                    out.push(item);
                },
                Err(_) => {
                    assert(c == source[out@.len() as int]);
                    assert(!(tailoring(joined(source[out@.len() as int].rules@)) is Ok));
                    return Err(Error::RuleParseError);
                },
            }
        }
        Ok(Locale { identity, collations: out })
    }
}

} // verus!
