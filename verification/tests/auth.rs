use greenlight::auth::{approved_invoices, invoices_valid, DummyAuthorizer, GreenlightAuthorizer, PayRequest, Request};
use lightning_signer::invoice::Invoice;
use std::str::FromStr;
use vls_protocol_signer::approver::Approval;

const INVOICE: &str = "lnbc1pvjluezsp5zyg3zyg3zyg3zyg3zyg3zyg3zyg3zyg3zyg3zyg3zyg3zyg3zygspp5qqqsyqcyq5rqwzqfqqqsyqcyq5rqwzqfqqqsyqcyq5rqwzqfqypqdpl2pkx2ctnv5sxxmmwwd5kgetjypeh2ursdae8g6twvus8g6rfwvs8qun0dfjkxaq9qrsgq357wnc5r2ueh7ck6q93dj32dlqnls087fxdwk8qakdyafkq3yap9us6v52vjjsrvywa6rt52cm9r9zqt8r2t7mlcwspyetp5h2tztugp9lfyql";

fn pay(bolt11: &str) -> Request {
    Request::GlPay(PayRequest { bolt11: bolt11.to_string() })
}

#[test]
fn dummy_approves_nothing() {
    let r = DummyAuthorizer {}.authorize(&vec![pay(INVOICE), Request::Other]).unwrap();
    assert!(r.is_empty());
}

#[test]
fn payment_invoices_are_selected_in_order() {
    let reqs = vec![Request::Other, pay("a"), Request::Other, pay("b")];
    assert_eq!(approved_invoices(&reqs), vec!["a".to_string(), "b".to_string()]);
}

#[test]
fn greenlight_approves_each_payment() {
    let a = GreenlightAuthorizer {};
    assert_eq!(a.authorize(&vec![Request::Other]).unwrap().len(), 0);
    let reqs = vec![pay(INVOICE), Request::Other, pay(INVOICE)];
    assert_eq!(a.authorize(&reqs).unwrap().len(), 2);
}

#[test]
fn unparsable_invoice_is_refused() {
    assert!(GreenlightAuthorizer {}.try_authorize(&vec![pay("not an invoice")]).is_none());
    assert!(GreenlightAuthorizer {}.try_authorize(&vec![pay(INVOICE)]).is_some());
}

#[test]
fn invoices_are_checked_before_approval() {
    assert!(invoices_valid(&vec![Request::Other, pay(INVOICE)]));
    assert!(invoices_valid(&vec![]));
    assert!(!invoices_valid(&vec![pay(INVOICE), pay("lnbc1")]));
}

#[test]
fn each_approval_carries_its_invoice() {
    let a = GreenlightAuthorizer {};
    let approvals = a.try_authorize(&vec![Request::Other, pay(INVOICE)]).unwrap();
    assert_eq!(approvals.len(), 1);
    let expected = Invoice::from_str(INVOICE).unwrap();
    match &approvals[0] {
        Approval::Invoice(inv) => assert_eq!(format!("{:?}", inv), format!("{:?}", expected)),
        other => panic!("unexpected approval {:?}", other),
    }
}
