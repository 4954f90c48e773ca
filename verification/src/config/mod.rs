//! User settings that the transcription logic reads.
use vstd::prelude::*;

verus! {

/// The OpenAI speech-to-text model used for transcription.
#[derive(Clone, Copy, Debug, PartialEq, Eq, Structural)]
pub enum TranscriptionModel {
    Whisper1,
    Gpt4oTranscribe,
    Gpt4oMiniTranscribe,
    Gpt4oTranscribeDiarize,
}

impl TranscriptionModel {
    pub open spec fn api_id_spec(self) -> Seq<char> {
        match self {
            TranscriptionModel::Whisper1 => "whisper-1"@,
            TranscriptionModel::Gpt4oTranscribe => "gpt-4o-transcribe"@,
            TranscriptionModel::Gpt4oMiniTranscribe => "gpt-4o-mini-transcribe"@,
            TranscriptionModel::Gpt4oTranscribeDiarize => "gpt-4o-transcribe-diarize"@,
        }
    }

    /// The model's identifier in the API.
    pub fn api_id(&self) -> (r: &'static str)
        ensures
            r@ == self.api_id_spec(),
    {
        match self {
            TranscriptionModel::Whisper1 => "whisper-1",
            TranscriptionModel::Gpt4oTranscribe => "gpt-4o-transcribe",
            TranscriptionModel::Gpt4oMiniTranscribe => "gpt-4o-mini-transcribe",
            TranscriptionModel::Gpt4oTranscribeDiarize => "gpt-4o-transcribe-diarize",
        }
    }

    pub open spec fn supports_text_spec(self) -> bool {
        !(self is Gpt4oTranscribeDiarize)
    }

    /// The model can answer with plain text (`response_format=text`).
    pub fn supports_text_response(&self) -> (r: bool)
        ensures
            r == self.supports_text_spec(),
    {
        match self {
            TranscriptionModel::Gpt4oTranscribeDiarize => false,
            _ => true,
        }
    }
}

} // verus!
