use keepldr::attestation::{fetch_plan, Attestation};
use keepldr::codec::{decode, encode};
use keepldr::config::{attempts_recovery, workload_endpoint, Config, KeySource};
use keepldr::dispatch::{dispatch_plan, exit_code_for, DispatchOutcome};
use keepldr::envelope::{Rejection, Workload};
use keepldr::identity::{provision_key, KeyProvenance};

#[test]
fn exit_code_is_zero_exactly_on_success() {
    assert_eq!(exit_code_for(&DispatchOutcome::Success(String::from("I32(1)"))), 0);
    assert_eq!(exit_code_for(&DispatchOutcome::Failure(String::from("trap"))), 1);
}

#[test]
fn dispatch_plan_keeps_the_payload_and_one_empty_argument() {
    let w = Workload {
        human_readable_info: String::from("demo"),
        wasm_binary: vec![0x00, 0x61, 0x73, 0x6d],
    };
    let plan = dispatch_plan(w);
    assert_eq!(plan.payload, vec![0x00, 0x61, 0x73, 0x6d]);
    assert_eq!(plan.args, vec![String::new()]);
}

#[test]
fn config_carries_its_fields() {
    let c = Config::new(String::from("127.0.0.1"), 3040, KeySource::RecoverThenGenerate);
    assert_eq!(c.listen_address, "127.0.0.1");
    assert_eq!(c.listen_port, 3040);
    assert!(attempts_recovery(&c.key_source));
    assert!(!attempts_recovery(&KeySource::Generate));
    assert_eq!(workload_endpoint(), "workload");
}

#[test]
fn rejection_carries_its_diagnostic() {
    let r = Rejection::new("payload parsing problem");
    assert_eq!(r.message(), "payload parsing problem");
}

#[test]
fn stub_adapter_pipeline_dispatches_the_posted_bytes() {
    // the full pipeline below the network layer, with a stub adapter that
    // reports no attestation technology: provision, decode, dispatch
    let probe = Ok(Attestation::NotPresent);
    assert_eq!(fetch_plan(&probe), None);
    let provisioned = provision_key(&probe, None).expect("provisioning must not fail");
    assert!(matches!(provisioned.provenance, KeyProvenance::FreshlyGenerated));

    let module = vec![0x00, 0x61, 0x73, 0x6d, 0x01, 0x00, 0x00, 0x00];
    let body = encode(&Workload {
        human_readable_info: String::from("t"),
        wasm_binary: module.clone(),
    });
    let workload = decode(&body).expect("the posted body must decode");
    let plan = dispatch_plan(workload);
    assert_eq!(plan.payload, module);
    let outcome = DispatchOutcome::Success(String::from("I32(1)"));
    assert_eq!(exit_code_for(&outcome), 0);
}
