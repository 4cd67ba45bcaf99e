use ipp::client::IppClientBuilder;

#[test]
fn test_builder() {
    let mut builder = IppClientBuilder::new("foobar");
    assert_eq!(builder.uri, "foobar");

    let cert = String::from("mycert");
    builder = builder.ca_cert(&cert);
    assert_eq!(builder.ca_certs, vec![cert.clone()]);

    builder = builder.ca_certs(&[cert.clone()]);
    assert_eq!(builder.ca_certs, vec![cert.clone(), cert.clone()]);

    builder = builder.verify_hostname(false);
    assert!(!builder.verify_hostname);

    builder = builder.verify_certificate(false);
    assert!(!builder.verify_certificate);

    builder = builder.timeout(100);
    assert_eq!(builder.timeout, 100);

    let _ = builder.build();
}

#[test]
fn test_builder_defaults() {
    let builder = IppClientBuilder::new("ipp://localhost:631/printers/p");
    assert!(builder.verify_hostname);
    assert!(builder.verify_certificate);
    assert_eq!(builder.timeout, 0);
    assert!(builder.ca_certs.is_empty());
    let client = builder.build();
    assert_eq!(client.uri, "ipp://localhost:631/printers/p");
    assert_eq!(client.timeout, 0);
}
