//! Choice of the engine voice for a synthesis request.
use vstd::prelude::*;

verus! {

/// Identifiers of the fixed-rate voice family start with this.
pub open spec fn auxiliary_prefix() -> Seq<char> {
    seq!['m', 'b', '/']
}

/// The engine voice name for a request: a fixed-rate voice by its
/// identifier alone; otherwise the identifier as a variant of the requested
/// language, or of `default_voice` when no language is given.
pub open spec fn engine_voice_name(
    voice_id: Seq<char>,
    language: Seq<char>,
    default_voice: Seq<char>,
) -> Seq<char> {
    if voice_id.len() >= 3 && voice_id.take(3) == auxiliary_prefix() {
        voice_id
    } else if language.len() == 0 {
        default_voice + seq!['+'] + voice_id
    } else {
        language + seq!['+'] + voice_id
    }
}

/// Picks the engine voice name for a request on `voice_id` in `language`.
pub fn select_voice_name(voice_id: &str, language: &str, default_voice: &str) -> (r: String)
    ensures
        r@ == engine_voice_name(voice_id@, language@, default_voice@),
{
    let len = voice_id.unicode_len();
    let auxiliary = len >= 3 && voice_id.get_char(0) == 'm' && voice_id.get_char(1) == 'b'
        && voice_id.get_char(2) == '/';
    proof {
        if len >= 3 {
            let p = voice_id@.take(3);
            if p == auxiliary_prefix() {
                assert(p[0] == voice_id@[0] && p[1] == voice_id@[1] && p[2] == voice_id@[2]);
            }
            if auxiliary {
                assert(p =~= auxiliary_prefix());
            }
        }
    }
    if auxiliary {
        return String::from_str(voice_id);
    }
    let mut name = if language.unicode_len() == 0 {
        String::from_str(default_voice)
    } else {
        String::from_str(language)
    };
    let plus = "+";
    proof {
        reveal_strlit("+");
    }
    name.append(plus);
    name.append(voice_id);
    assert(plus@ =~= seq!['+']);
    name
}

} // verus!
