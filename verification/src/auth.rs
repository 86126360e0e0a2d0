//! Authorization of signature requests based on the client calls that are
//! pending at the node.

use lightning_signer::invoice::Invoice;
use std::str::FromStr;
use vls_protocol_signer::approver::Approval;
use vstd::prelude::*;

verus! {

#[verifier::external_type_specification]
#[verifier::external_body]
pub struct ExApproval(Approval);

/// A client's request to pay an invoice.
#[derive(Clone, Debug, PartialEq, Eq)]
pub struct PayRequest {
    pub bolt11: String,
}

/// A client call pending at the node, as far as authorization reads it:
/// a payment request, or any other call.
#[derive(Clone, Debug, PartialEq, Eq)]
pub enum Request {
    GlPay(PayRequest),
    Other,
}

/// The invoices that the pending calls ask to pay, in order.
pub open spec fn pay_invoices(requests: Seq<Request>) -> Seq<Seq<char>>
    decreases requests.len(),
{
    if requests.len() == 0 {
        Seq::empty()
    } else {
        let rest = pay_invoices(requests.drop_last());
        match requests.last() {
            Request::GlPay(p) => rest.push(p.bolt11@),
            Request::Other => rest,
        }
    }
}

/// The invoice a pending call asks to pay, if it is a payment.
pub open spec fn payment_invoice(r: Request) -> Option<Seq<char>> {
    match r {
        Request::GlPay(p) => Some(p.bolt11@),
        Request::Other => None,
    }
}

/// The invoices of the payments among `requests`, one per payment, in order.
pub open spec fn payment_invoices(requests: Seq<Request>) -> Seq<Seq<char>> {
    requests.filter_map(|r: Request| payment_invoice(r))
}

/// Every payment request yields its invoice, in the order of the
/// requests, and no other request yields anything: the invoices to
/// approve are exactly those of the payments.
pub proof fn law_one_invoice_per_payment(requests: Seq<Request>)
    ensures
        pay_invoices(requests) == payment_invoices(requests),
    decreases requests.len(),
{
    if requests.len() > 0 {
        law_one_invoice_per_payment(requests.drop_last());
        match requests.last() {
            Request::GlPay(p) => {
                assert(pay_invoices(requests) =~= payment_invoices(requests));
            },
            Request::Other => {},
        }
    }
}

/// Approving the calls of two batches gives the invoices of the first
/// batch followed by those of the second.
pub proof fn law_invoices_of_concatenation(a: Seq<Request>, b: Seq<Request>)
    ensures
        pay_invoices(a + b) == pay_invoices(a) + pay_invoices(b),
    decreases b.len(),
{
    if b.len() == 0 {
        assert(a + b =~= a);
        assert(pay_invoices(a) + pay_invoices(b) =~= pay_invoices(a));
    } else {
        law_invoices_of_concatenation(a, b.drop_last());
        assert((a + b).drop_last() =~= a + b.drop_last());
        assert((a + b).last() == b.last());
        match b.last() {
            Request::GlPay(p) => {
                assert(pay_invoices(a + b) =~= pay_invoices(a) + pay_invoices(b));
            },
            Request::Other => {},
        }
    }
}

/// Whether `s` parses as a BOLT-11 or BOLT-12 invoice.
pub uninterp spec fn spec_is_invoice(s: Seq<char>) -> bool;

/// The approval of the invoice that `s` parses to.
pub uninterp spec fn spec_invoice_approval(s: Seq<char>) -> Approval;

/// Every invoice the pending calls ask to pay parses.
pub open spec fn invoices_parse(requests: Seq<Request>) -> bool {
    forall|i: int| 0 <= i < pay_invoices(requests).len() ==> spec_is_invoice(#[trigger] pay_invoices(requests)[i])
}

/// Calls `lightning_signer::invoice::Invoice::from_str` and, when the
/// string parses, wraps the invoice into an
/// `vls_protocol_signer::approver::Approval::Invoice`. Whether the string
/// parses, and the approval it gives, are left to the names; the parse
/// reads the string alone.
#[verifier::external_body]
fn invoice_approval(bolt11: &str) -> (a: Option<Approval>)
    ensures
        a is Some <==> spec_is_invoice(bolt11@),
        a matches Some(x) ==> x == spec_invoice_approval(bolt11@),
{
    Invoice::from_str(bolt11).ok().map(Approval::Invoice)
}

/// Collects the invoices that the pending calls ask to pay, in order.
pub fn approved_invoices(requests: &Vec<Request>) -> (r: Vec<String>)
    ensures
        r@.map_values(|s: String| s@) == pay_invoices(requests@),
{
    let mut r: Vec<String> = Vec::new();
    let mut i: usize = 0;
    while i < requests.len()
        invariant
            i <= requests@.len(),
            r@.map_values(|s: String| s@) == pay_invoices(requests@.subrange(0, i as int)),
        decreases requests.len() - i,
    {
        let ghost before = r@;
        assert(requests@.subrange(0, i + 1).drop_last() =~= requests@.subrange(0, i as int));
        assert(requests@.subrange(0, i + 1).last() == requests@[i as int]);
        match &requests[i] {
            Request::GlPay(p) => {
                r.push(p.bolt11.clone());
                assert(r@.map_values(|s: String| s@) =~= before.map_values(|s: String| s@).push(p.bolt11@));
            },
            Request::Other => {},
        }
        i = i + 1;
    }
    assert(requests@.subrange(0, requests@.len() as int) =~= requests@);
    r
}

/// The error of an authorization.
#[derive(Debug, PartialEq, Eq)]
pub struct AuthorizeError;

/// Approves nothing.
pub struct DummyAuthorizer {}

impl DummyAuthorizer {
    pub fn authorize(&self, requests: &Vec<Request>) -> (r: Result<Vec<Approval>, AuthorizeError>)
        ensures
            r matches Ok(v) && v@.len() == 0,
    {
        Ok(Vec::new())
    }
}

/// Approves the invoice of every pending payment request.
pub struct GreenlightAuthorizer {}

/// The approvals of the invoices the pending calls ask to pay, in order.
pub open spec fn approvals_of(requests: Seq<Request>, v: Seq<Approval>) -> bool {
    &&& v.len() == pay_invoices(requests).len()
    &&& forall|j: int| 0 <= j < v.len() ==> #[trigger] v[j] == spec_invoice_approval(pay_invoices(requests)[j])
}

/// Whether every invoice the pending calls ask to pay parses.
pub fn invoices_valid(requests: &Vec<Request>) -> (ok: bool)
    ensures
        ok == invoices_parse(requests@),
{
    let invoices = approved_invoices(requests);
    let ghost inv = pay_invoices(requests@);
    let mut i: usize = 0;
    while i < invoices.len()
        invariant
            i <= invoices@.len(),
            invoices@.map_values(|s: String| s@) == inv,
            inv == pay_invoices(requests@),
            forall|j: int| 0 <= j < i ==> spec_is_invoice(#[trigger] inv[j]),
        decreases invoices.len() - i,
    {
        assert(inv[i as int] == invoices@[i as int]@);
        if invoice_approval(invoices[i].as_str()).is_none() {
            return false;
        }
        i = i + 1;
    }
    true
}

impl GreenlightAuthorizer {
    /// Approves the invoice of every pending payment request, one approval
    /// per payment request and in their order. Every invoice must parse.
    pub fn authorize(&self, requests: &Vec<Request>) -> (r: Result<Vec<Approval>, AuthorizeError>)
        requires
            invoices_parse(requests@),
        ensures
            r matches Ok(v) && approvals_of(requests@, v@),
    {
        let invoices = approved_invoices(requests);
        let ghost inv = pay_invoices(requests@);
        let mut approvals: Vec<Approval> = Vec::new();
        let mut i: usize = 0;
        while i < invoices.len()
            invariant
                i <= invoices@.len(),
                invoices@.map_values(|s: String| s@) == inv,
                inv == pay_invoices(requests@),
                invoices_parse(requests@),
                approvals@.len() == i,
                forall|j: int| 0 <= j < i ==> #[trigger] approvals@[j] == spec_invoice_approval(inv[j]),
            decreases invoices.len() - i,
        {
            assert(inv[i as int] == invoices@[i as int]@);
            assert(spec_is_invoice(inv[i as int]));
            match invoice_approval(invoices[i].as_str()) {
                Some(a) => approvals.push(a),
                None => {
                    proof {
                        assert(false);
                    }
                },
            }
            i = i + 1;
        }
        Ok(approvals)
    }

    /// The approvals for the invoices of the pending payment requests, one
    /// per payment request and in their order, or `None` when one of the
    /// invoices does not parse.
    pub fn try_authorize(&self, requests: &Vec<Request>) -> (r: Option<Vec<Approval>>)
        ensures
            match r {
                Some(v) => invoices_parse(requests@) && approvals_of(requests@, v@),
                None => !invoices_parse(requests@),
            },
    {
        if !invoices_valid(requests) {
            return None;
        }
        match self.authorize(requests) {
            Ok(v) => Some(v),
            Err(_) => None,
        }
    }
}

}
