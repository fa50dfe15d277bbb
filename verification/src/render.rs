//! The renderer: walks a compiled template against a playback record,
//! copying literal tokens verbatim and substituting each placeholder with
//! the field's text. Rendering never fails and changes nothing, so the same
//! template and record always yield the same output.

use vstd::prelude::*;
use vstd::string::StringExecFns;

use crate::record::status_str;
use crate::record::status_word;
use crate::record::FieldRef;
use crate::record::PlaybackRecord;
use crate::record::RecordV;
use crate::template::CompiledTemplate;
use crate::template::Token;
use crate::template::TokenV;
use crate::text::dec_str;
use crate::text::u32_to_string;

verus! {

/// The text one placeholder produces: the status word, the position or
/// duration in decimal, or the optional field's text (empty when absent).
pub open spec fn field_str(f: FieldRef, r: RecordV) -> Seq<char> {
    match f {
        FieldRef::Status => status_word(r.status),
        FieldRef::Position => dec_str(r.position as int),
        FieldRef::Duration => dec_str(r.duration as int),
        FieldRef::Title => match r.title {
            Option::None => Seq::<char>::empty(),
            Option::Some(t) => t,
        },
        FieldRef::Artist => match r.artist {
            Option::None => Seq::<char>::empty(),
            Option::Some(t) => t,
        },
        FieldRef::Album => match r.album {
            Option::None => Seq::<char>::empty(),
            Option::Some(t) => t,
        },
    }
}

/// The text one token produces.
pub open spec fn token_str(t: TokenV, r: RecordV) -> Seq<char> {
    match t {
        TokenV::Literal(text) => text,
        TokenV::Placeholder(f) => field_str(f, r),
    }
}

/// The text a whole token sequence produces: each token's text in order.
pub open spec fn render_spec(ts: Seq<TokenV>, r: RecordV) -> Seq<char>
    decreases ts.len(),
{
    if ts.len() == 0 {
        Seq::<char>::empty()
    } else {
        token_str(ts[0], r) + render_spec(ts.drop_first(), r)
    }
}

/// Renders a record through a compiled template.
///
/// The output is exactly `render_spec` of the two: rendering is total and
/// pure, so it can never fail and depends on nothing but its arguments.
pub fn render(template: &CompiledTemplate, record: &PlaybackRecord) -> (out: String)
    ensures
        out@ == render_spec(template@, record@),
{
    let mut out = String::new();
    let n = template.tokens.len();
    let mut i: usize = 0;
    proof {
        assert(template@.skip(0) =~= template@);
        assert(Seq::<char>::empty() + render_spec(template@, record@) =~= render_spec(
            template@,
            record@,
        ));
    }
    while i < n
        invariant
            n == template.tokens@.len(),
            0 <= i <= n,
            render_spec(template@, record@) == out@ + render_spec(
                template@.skip(i as int),
                record@,
            ),
        decreases n - i,
    {
        proof {
            assert(template@.skip(i as int)[0] == template@[i as int]);
            assert(template@.skip(i as int).drop_first() =~= template@.skip(i + 1));
        }
        match &template.tokens[i] {
            Token::Literal(text) => {
                out.append(text.as_str());
            },
            Token::Placeholder(f) => {
                match f {
                    FieldRef::Status => {
                        out.append(status_str(record.status).as_str());
                    },
                    FieldRef::Position => {
                        out.append(u32_to_string(record.position_seconds).as_str());
                    },
                    FieldRef::Duration => {
                        out.append(u32_to_string(record.duration_seconds).as_str());
                    },
                    FieldRef::Title => {
                        match &record.title {
                            None => {},
                            Some(t) => out.append(t.as_str()),
                        }
                    },
                    FieldRef::Artist => {
                        match &record.artist {
                            None => {},
                            Some(t) => out.append(t.as_str()),
                        }
                    },
                    FieldRef::Album => {
                        match &record.album {
                            None => {},
                            Some(t) => out.append(t.as_str()),
                        }
                    },
                }
            },
        }
        proof {
            assert(out@ + render_spec(template@.skip(i + 1), record@) =~= render_spec(
                template@,
                record@,
            ));
        }
        i = i + 1;
    }
    proof {
        assert(template@.skip(n as int) =~= Seq::<TokenV>::empty());
        assert(out@ + Seq::<char>::empty() =~= out@);
    }
    out
}

/// Rendering is referentially transparent: any two renders of the same
/// compiled token sequence against the same record produce identical text,
/// however often they are repeated.
pub proof fn lemma_render_deterministic(
    ts: Seq<TokenV>,
    r: RecordV,
    out1: Seq<char>,
    out2: Seq<char>,
)
    requires
        out1 == render_spec(ts, r),
        out2 == render_spec(ts, r),
    ensures
        out1 == out2,
{
}

} // verus!
