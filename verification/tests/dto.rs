use rot13_challenge::challenge::evaluate_at;
use rot13_challenge::dto::ApplicantInfo;
use rot13_challenge::dto::ChallengeResult;
use rot13_challenge::dto::EnvMissingError;
use rot13_challenge::dto::FinalSecret;
use rot13_challenge::dto::Instructions;

#[test]
fn challenge_result_carries_identity_and_secret() {
    let info = ApplicantInfo {
        applicant_name: "Ada Lovelace".to_string(),
        email: "ada@example.com".to_string(),
    };
    let instructions = Instructions { instructions: "fnl uryyb".to_string() };
    let secret = evaluate_at(instructions.instructions.as_bytes(), 1700000010).unwrap();
    let submission = ChallengeResult {
        applicant_name: info.applicant_name,
        email: info.email,
        secret: secret.clone(),
    };
    assert_eq!(submission.applicant_name, "Ada Lovelace");
    assert_eq!(submission.email, "ada@example.com");
    assert_eq!(submission.secret, blake3::hash(b"say hello1700000010").to_string());
}

#[test]
fn env_missing_error_names_the_variable() {
    let error = EnvMissingError("APPLICANT_NAME".to_string());
    assert_eq!(error.0, "APPLICANT_NAME");
}

#[test]
fn final_secret_holds_the_revealed_value() {
    let revealed = FinalSecret { secret: "well done".to_string() };
    assert_eq!(revealed.secret, "well done");
}
