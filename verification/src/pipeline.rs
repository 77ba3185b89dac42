//! The choices that the voice pipeline makes between its stages.
use vstd::prelude::*;

verus! {

/// The language that speech synthesis gets when none was given.
pub open spec fn default_tts_language() -> Seq<char> {
    seq!['e', 'n', 'g', 'l', 'i', 's', 'h']
}

/// The language handed to speech synthesis: the language hint given for
/// transcription, or English when there is none.
pub fn tts_language<'a>(language: Option<&'a str>) -> (l: &'a str)
    ensures
        language matches Some(given) ==> l@ == given@,
        language is None ==> l@ == default_tts_language(),
{
    match language {
        Some(given) => given,
        None => {
            proof {
                reveal_strlit("english");
            }
            let l = "english";
            assert(l@ =~= default_tts_language());
            l
        },
    }
}

} // verus!
