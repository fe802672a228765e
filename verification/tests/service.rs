use model_runner::config::{tls_mode, TlsConfig, TlsMode};
use model_runner::error::HttpErrorResponse;
use model_runner::model::{AudioTask, ModelBase, ModelDomain, TextTask, VideoTask};
use model_runner::task::{InstructRequest, TranscribeRequest};

#[test]
fn tls_is_all_or_nothing() {
    let cert = String::from("cert.pem");
    let key = String::from("key.pem");
    assert_eq!(tls_mode(Some(&cert), Some(&key)), TlsMode::Tls);
    assert_eq!(tls_mode(None, None), TlsMode::Plain);
    assert_eq!(tls_mode(Some(&cert), None), TlsMode::Misconfigured);
    assert_eq!(tls_mode(None, Some(&key)), TlsMode::Misconfigured);
    let tls = TlsConfig { certificate: cert, private_key: key };
    assert_eq!(tls.certificate, "cert.pem");
    assert_eq!(tls.private_key, "key.pem");
}

#[test]
fn model_metadata_holds_its_fields() {
    let base = ModelBase {
        name: String::from("Quantized Whisper"),
        license: String::from("MIT"),
        domain: ModelDomain::Audio(AudioTask::Transcribe),
        repo_id: String::from("lmz/candle-whisper"),
        repo_revision: String::from("main"),
    };
    assert_eq!(base.name, "Quantized Whisper");
    match base.domain {
        ModelDomain::Audio(task) => assert_eq!(task, AudioTask::Transcribe),
        _ => panic!("wrong domain"),
    }
    let text = ModelDomain::Text(vec![TextTask::Chat, TextTask::Instruct]);
    match text {
        ModelDomain::Text(tasks) => assert_eq!(tasks, vec![TextTask::Chat, TextTask::Instruct]),
        _ => panic!("wrong domain"),
    }
    assert_ne!(VideoTask::Describe, VideoTask::Generate);
}

#[test]
fn request_shapes_carry_plain_values() {
    let instruct = InstructRequest {
        model: String::from("phi2"),
        input: String::from("hello"),
        max_length: 128,
    };
    assert_eq!(instruct.max_length, 128);
    let transcribe = TranscribeRequest {
        model: String::from("whisper"),
        language: String::from("en"),
    };
    assert_eq!(transcribe.model, "whisper");
    assert_eq!(transcribe.language, "en");
}

#[test]
fn error_responses_carry_one_generic_message() {
    let from_string = HttpErrorResponse::from(String::from("rejected"));
    assert_eq!(from_string.message(), "rejected");
}
