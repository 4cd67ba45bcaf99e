//! Builder for a client configuration: the target URI, certificate
//! handling switches and the network timeout. The transport that uses the
//! configuration lives outside this crate.

use vstd::prelude::*;

verus! {

/// Configuration of an IPP client: where to send requests and how to
/// treat the peer's certificate.
pub struct IppClient {
    /// The printer or server URI.
    pub uri: String,
    /// Paths of extra CA certificates to trust.
    pub ca_certs: Vec<String>,
    /// Whether to verify the host name of the peer's certificate.
    pub verify_hostname: bool,
    /// Whether to verify the peer's certificate at all.
    pub verify_certificate: bool,
    /// Network timeout in seconds; 0 means no timeout.
    pub timeout: u64,
}

/// Builder to create an IPP client configuration.
pub struct IppClientBuilder {
    /// The printer or server URI.
    pub uri: String,
    /// Paths of extra CA certificates to trust.
    pub ca_certs: Vec<String>,
    /// Whether to verify the host name of the peer's certificate.
    pub verify_hostname: bool,
    /// Whether to verify the peer's certificate at all.
    pub verify_certificate: bool,
    /// Network timeout in seconds; 0 means no timeout.
    pub timeout: u64,
}

impl IppClientBuilder {
    /// Creates a client builder for a given URI. Host name and
    /// certificate verification default to on, the timeout to none.
    pub fn new(uri: &str) -> (r: IppClientBuilder)
        ensures
            r.uri@ == uri@,
            r.ca_certs@.len() == 0,
            r.verify_hostname == true,
            r.verify_certificate == true,
            r.timeout == 0,
    {
        IppClientBuilder {
            uri: uri.to_owned(),
            ca_certs: Vec::new(),
            verify_hostname: true,
            verify_certificate: true,
            timeout: 0,
        }
    }

    /// Adds one CA certificate path.
    pub fn ca_cert(self, path: &str) -> (r: IppClientBuilder)
        ensures
            r.ca_certs@.len() == self.ca_certs@.len() + 1,
            forall|i: int|
                0 <= i < self.ca_certs@.len() ==> r.ca_certs@[i] == self.ca_certs@[i],
            r.ca_certs@.last()@ == path@,
            r.uri == self.uri,
            r.verify_hostname == self.verify_hostname,
            r.verify_certificate == self.verify_certificate,
            r.timeout == self.timeout,
    {
        let mut b = self;
        b.ca_certs.push(path.to_owned());
        b
    }

    /// Adds several CA certificate paths.
    pub fn ca_certs(self, paths: &[String]) -> (r: IppClientBuilder)
        ensures
            r.ca_certs@.len() == self.ca_certs@.len() + paths@.len(),
            forall|i: int|
                0 <= i < self.ca_certs@.len() ==> r.ca_certs@[i] == self.ca_certs@[i],
            forall|i: int|
                0 <= i < paths@.len() ==> r.ca_certs@[self.ca_certs@.len() + i]@ == paths@[i]@,
            r.uri == self.uri,
            r.verify_hostname == self.verify_hostname,
            r.verify_certificate == self.verify_certificate,
            r.timeout == self.timeout,
    {
        let mut b = self;
        let n = paths.len();
        let mut i: usize = 0;
        while i < n
            invariant
                n == paths@.len(),
                i <= n,
                b.ca_certs@.len() == self.ca_certs@.len() + i,
                forall|k: int|
                    0 <= k < self.ca_certs@.len() ==> b.ca_certs@[k] == self.ca_certs@[k],
                forall|k: int|
                    0 <= k < i ==> b.ca_certs@[self.ca_certs@.len() + k]@ == paths@[k]@,
                b.uri == self.uri,
                b.verify_hostname == self.verify_hostname,
                b.verify_certificate == self.verify_certificate,
                b.timeout == self.timeout,
            decreases n - i,
        {
            b.ca_certs.push(paths[i].clone());
            i = i + 1;
        }
        b
    }

    /// Enables or disables host name verification. Default is on.
    pub fn verify_hostname(self, verify: bool) -> (r: IppClientBuilder)
        ensures
            r.verify_hostname == verify,
            r.uri == self.uri,
            r.ca_certs == self.ca_certs,
            r.verify_certificate == self.verify_certificate,
            r.timeout == self.timeout,
    {
        let mut b = self;
        b.verify_hostname = verify;
        b
    }

    /// Enables or disables certificate verification. Default is on.
    pub fn verify_certificate(self, verify: bool) -> (r: IppClientBuilder)
        ensures
            r.verify_certificate == verify,
            r.uri == self.uri,
            r.ca_certs == self.ca_certs,
            r.verify_hostname == self.verify_hostname,
            r.timeout == self.timeout,
    {
        let mut b = self;
        b.verify_certificate = verify;
        b
    }

    /// Sets the network timeout in seconds. Default is 0, no timeout.
    pub fn timeout(self, timeout: u64) -> (r: IppClientBuilder)
        ensures
            r.timeout == timeout,
            r.uri == self.uri,
            r.ca_certs == self.ca_certs,
            r.verify_hostname == self.verify_hostname,
            r.verify_certificate == self.verify_certificate,
    {
        let mut b = self;
        b.timeout = timeout;
        b
    }

    /// Builds the client configuration, moving every setting over.
    pub fn build(self) -> (r: IppClient)
        ensures
            r.uri == self.uri,
            r.ca_certs == self.ca_certs,
            r.verify_hostname == self.verify_hostname,
            r.verify_certificate == self.verify_certificate,
            r.timeout == self.timeout,
    {
        IppClient {
            uri: self.uri,
            ca_certs: self.ca_certs,
            verify_hostname: self.verify_hostname,
            verify_certificate: self.verify_certificate,
            timeout: self.timeout,
        }
    }
}

} // verus!
