//! Model of the ordered output channel of removed certificates. The real
//! channel is capacity-bounded and the producer blocks on a full channel,
//! so a completed send always means delivery; what the model keeps is the
//! delivered sequence. A send on a channel whose receiver is gone is fatal
//! for the owning task, so verified senders require a live receiver.

use vstd::prelude::*;
use crate::types::{Certificate, CertificateView};

verus! {

/// Sending half of the removed-certificates channel.
pub struct CertificateSender {
    pub sent: Vec<Certificate>,
    pub receiver_alive: bool,
}

impl View for CertificateSender {
    type V = Seq<CertificateView>;

    open spec fn view(&self) -> Seq<CertificateView> {
        self.sent@.map_values(|c: Certificate| c@)
    }
}

impl CertificateSender {
    pub fn new() -> (s: Self)
        ensures
            s@ == Seq::<CertificateView>::empty(),
            s.receiver_alive,
    {
        let s = CertificateSender { sent: Vec::new(), receiver_alive: true };
        proof {
            assert(s@ =~= Seq::<CertificateView>::empty());
        }
        s
    }

    /// Drops the receiving half.
    pub fn close(&mut self)
        ensures
            final(self).sent == old(self).sent,
            !final(self).receiver_alive,
    {
        self.receiver_alive = false;
    }

    /// Blocking publish: delivers the certificate in order.
    pub fn send(&mut self, c: Certificate)
        requires
            old(self).receiver_alive,
        ensures
            final(self)@ == old(self)@.push(c@),
            final(self).receiver_alive,
    {
        let ghost pre = self.sent@;
        self.sent.push(c);
        proof {
            assert(self@ =~= pre.map_values(|x: Certificate| x@).push(c@));
        }
    }
}

} // verus!
