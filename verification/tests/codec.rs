use iota_mam_protobuf3::errors::Error;
use iota_mam_protobuf3::link::LinkStore;
use iota_mam_protobuf3::mss;
use iota_mam_protobuf3::ntru;
use iota_mam_protobuf3::ops::{Op, Prim};
use iota_mam_protobuf3::sizeof;
use iota_mam_protobuf3::spongos::Spongos;
use iota_mam_protobuf3::trits::Trits;
use iota_mam_protobuf3::types::{External, Mac, NTrytes, Size, Trint3, Trytes};
use iota_mam_protobuf3::unwrap;
use iota_mam_protobuf3::wrap;

fn pattern(n: usize, salt: u8) -> Trits {
    let mut v = Vec::new();
    for i in 0..n {
        v.push(((i as u8).wrapping_add(salt)) % 3);
    }
    Trits(v)
}

fn signer() -> mss::PrivateKey {
    mss::PrivateKey::new(pattern(mss::PK_SIZE, 1), 2)
}

fn ntru_sk() -> ntru::PrivateKey {
    ntru::PrivateKey { trits: pattern(ntru::PK_SIZE, 2) }
}

#[test]
fn size_matches_wrap_simple() {
    // The size pass predicts the writer's output exactly.
    let mut sz = sizeof::Context::new();
    sz.absorb_trint3(&Trint3(-5)).unwrap();
    sz.absorb_size(&Size(1000)).unwrap();
    sz.absorb_trytes(&Trytes(pattern(9, 0))).unwrap();
    sz.absorb_ntrytes(&NTrytes(pattern(6, 1))).unwrap();
    sz.mask_trint3(&Trint3(13)).unwrap();
    sz.mask_ntrytes(&NTrytes(pattern(12, 2))).unwrap();
    sz.commit().unwrap();
    sz.squeeze_mac(&Mac(27)).unwrap();

    let mut w = wrap::Context::new(Spongos::new());
    w.absorb_trint3(&Trint3(-5)).unwrap();
    w.absorb_size(&Size(1000)).unwrap();
    w.absorb_trytes(&Trytes(pattern(9, 0))).unwrap();
    w.absorb_ntrytes(&NTrytes(pattern(6, 1))).unwrap();
    w.mask_trint3(&Trint3(13)).unwrap();
    w.mask_ntrytes(&NTrytes(pattern(12, 2))).unwrap();
    w.commit().unwrap();
    w.squeeze_mac(&Mac(27)).unwrap();

    assert_eq!(sz.get_size(), w.buf.len());
}

#[test]
fn round_trip_simple() {
    // The reader recovers exactly what the writer consumed.
    let mut w = wrap::Context::new(Spongos::new());
    w.absorb_trint3(&Trint3(-13)).unwrap();
    w.absorb_size(&Size(728)).unwrap();
    w.absorb_trytes(&Trytes(pattern(9, 3))).unwrap();
    w.absorb_ntrytes(&NTrytes(pattern(6, 4))).unwrap();
    w.mask_trint3(&Trint3(7)).unwrap();
    w.mask_ntrytes(&NTrytes(pattern(12, 5))).unwrap();
    w.skip_trint3(&Trint3(0)).unwrap();
    w.commit().unwrap();
    w.squeeze_mac(&Mac(30)).unwrap();
    let wire = w.buf.clone();

    let mut r = unwrap::Context::new(Trits(wire), Spongos::new());
    assert_eq!(r.absorb_trint3().unwrap().0, -13);
    assert_eq!(r.absorb_size().unwrap().0, 728);
    assert_eq!(r.absorb_trytes().unwrap().0 .0, pattern(9, 3).0);
    assert_eq!(r.absorb_ntrytes(6).unwrap().0 .0, pattern(6, 4).0);
    assert_eq!(r.mask_trint3().unwrap().0, 7);
    assert_eq!(r.mask_ntrytes(12).unwrap().0 .0, pattern(12, 5).0);
    assert_eq!(r.skip_trint3().unwrap().0, 0);
    r.commit().unwrap();
    r.squeeze_mac(&Mac(30)).unwrap();
    assert_eq!(r.get_size(), r.wire.0.len());
}

#[test]
fn tamper_in_mac_region_fails() {
    let mut w = wrap::Context::new(Spongos::new());
    w.absorb_ntrytes(&NTrytes(pattern(9, 6))).unwrap();
    w.commit().unwrap();
    w.squeeze_mac(&Mac(27)).unwrap();
    let mut wire = w.buf.clone();
    let mac_start = wire.len() - 27;
    wire[mac_start] = (wire[mac_start] + 1) % 3;

    let mut r = unwrap::Context::new(Trits(wire), Spongos::new());
    r.absorb_ntrytes(9).unwrap();
    r.commit().unwrap();
    assert_eq!(r.squeeze_mac(&Mac(27)), Err(Error::AuthMismatch));
}

#[test]
fn tamper_in_mask_region_fails() {
    let mut w = wrap::Context::new(Spongos::new());
    w.mask_ntrytes(&NTrytes(pattern(9, 7))).unwrap();
    w.commit().unwrap();
    w.squeeze_mac(&Mac(27)).unwrap();
    let mut wire = w.buf.clone();
    wire[0] = (wire[0] + 1) % 3;

    let mut r = unwrap::Context::new(Trits(wire), Spongos::new());
    // Decryption exposes a different cleartext, which desynchronizes the
    // transcript, so the tag no longer matches.
    let got = r.mask_ntrytes(9).unwrap();
    assert_ne!(got.0 .0, pattern(9, 7).0);
    r.commit().unwrap();
    assert_eq!(r.squeeze_mac(&Mac(27)), Err(Error::AuthMismatch));
}

#[test]
fn key_exhaustion() {
    // Height 2: exactly 4 one-time keys.
    let mut sk = mss::PrivateKey::new(pattern(mss::PK_SIZE, 1), 2);
    let hash = External(NTrytes(pattern(mss::HASH_SIZE, 8)));
    let mut w = wrap::Context::new(Spongos::new());
    for _ in 0..4 {
        w.mssig(&mut sk, &hash).unwrap();
    }
    assert_eq!(w.mssig(&mut sk, &hash), Err(Error::MssExhausted));

    // The size pass checks the same precondition.
    let mut sz = sizeof::Context::new();
    assert_eq!(sz.mssig(&sk, &hash), Err(Error::MssExhausted));
    assert_eq!(sz.mssig_prehashed(&sk, iota_mam_protobuf3::types::MssHashSig),
        Err(Error::MssExhausted));
}

#[test]
fn trytes_size_law_boundaries() {
    // sizeof(Trytes of n trits) == sizeof_sizet(n/3) + n.
    for (n, expected) in [(0usize, 3usize), (3, 9), (78, 84), (81, 90)] {
        let mut sz = sizeof::Context::new();
        sz.absorb_trytes(&Trytes(pattern(n, 0))).unwrap();
        assert_eq!(sz.get_size(), expected, "payload of {} trits", n);
    }
}

#[test]
fn size_encoding_round_trip() {
    for n in [0usize, 1, 2, 26, 27, 728, 729, 19682, 19683, usize::MAX] {
        let mut w = wrap::Context::new(Spongos::new());
        w.absorb_size(&Size(n)).unwrap();
        let mut r = unwrap::Context::new(Trits(w.buf.clone()), Spongos::new());
        assert_eq!(r.absorb_size().unwrap().0, n);
    }
}

#[test]
fn trint3_all_values_round_trip() {
    for v in -13i8..=13 {
        let mut w = wrap::Context::new(Spongos::new());
        w.absorb_trint3(&Trint3(v)).unwrap();
        assert_eq!(w.buf.len(), 3);
        let mut r = unwrap::Context::new(Trits(w.buf.clone()), Spongos::new());
        assert_eq!(r.absorb_trint3().unwrap().0, v);
    }
}

#[test]
fn external_changes_tag_not_size() {
    let run = |ext: Trits| {
        let mut w = wrap::Context::new(Spongos::new());
        w.absorb_ntrytes(&NTrytes(pattern(9, 0))).unwrap();
        w.absorb_external_ntrytes(&External(NTrytes(ext))).unwrap();
        w.commit().unwrap();
        w.squeeze_mac(&Mac(27)).unwrap();
        w.buf
    };
    let a = run(pattern(9, 1));
    let b = run(pattern(9, 2));
    // Same wire size, same cleartext prefix, different authentication tag.
    assert_eq!(a.len(), b.len());
    assert_eq!(&a[..9], &b[..9]);
    assert_ne!(&a[9..], &b[9..]);
}

#[test]
fn fork_leaves_parent_transcript_alone() {
    let mut plain = wrap::Context::new(Spongos::new());
    plain.absorb_ntrytes(&NTrytes(pattern(9, 3))).unwrap();
    plain.commit().unwrap();
    plain.squeeze_mac(&Mac(27)).unwrap();

    let mut forked = wrap::Context::new(Spongos::new());
    forked.absorb_ntrytes(&NTrytes(pattern(9, 3))).unwrap();
    let saved = forked.fork_sponge();
    forked.absorb_ntrytes(&NTrytes(pattern(30, 4))).unwrap();
    forked.restore_sponge(saved);
    forked.commit().unwrap();
    forked.squeeze_mac(&Mac(27)).unwrap();

    // The fork's bytes reach the wire, but the tag afterwards is the one the
    // un-forked transcript produces.
    let plain_mac = &plain.buf[plain.buf.len() - 27..];
    let forked_mac = &forked.buf[forked.buf.len() - 27..];
    assert_eq!(plain_mac, forked_mac);
    assert_eq!(forked.buf.len(), plain.buf.len() + 30);
}

#[test]
fn mssig_round_trip_and_tamper() {
    let mut sk = signer();
    let pk = sk.public_key();
    let hash = External(NTrytes(pattern(mss::HASH_SIZE, 9)));
    let mut w = wrap::Context::new(Spongos::new());
    w.mssig(&mut sk, &hash).unwrap();
    assert_eq!(w.buf.len(), mss::sig_size(2));

    let mut r = unwrap::Context::new(Trits(w.buf.clone()), Spongos::new());
    r.mssig(&pk, 2, &hash).unwrap();

    let mut tampered = w.buf.clone();
    let at = tampered.len() - 1;
    tampered[at] = (tampered[at] + 1) % 3;
    let mut r2 = unwrap::Context::new(Trits(tampered), Spongos::new());
    assert_eq!(r2.mssig(&pk, 2, &hash), Err(Error::AuthMismatch));
}

#[test]
fn ntrukem_round_trip() {
    let sk = ntru_sk();
    let pk = sk.public_key();
    let secret = NTrytes(pattern(ntru::KEY_SIZE, 10));
    let mut w = wrap::Context::new(Spongos::new());
    w.ntrukem(&pk, &secret).unwrap();
    assert_eq!(w.buf.len(), ntru::EKEY_SIZE);

    let mut r = unwrap::Context::new(Trits(w.buf.clone()), Spongos::new());
    let got = r.ntrukem(&sk).unwrap();
    assert_eq!(got.0 .0, secret.0 .0);
}

#[test]
fn join_round_trip_and_missing_link() {
    let mut store = LinkStore::new();
    store.add(pattern(9, 11), pattern(27, 12));

    let mut sz = sizeof::Context::new();
    sz.join(&store, &NTrytes(pattern(9, 11))).unwrap();
    assert_eq!(sz.get_size(), 9);

    let mut w = wrap::Context::new(Spongos::new());
    w.join(&store, &NTrytes(pattern(9, 11))).unwrap();
    assert_eq!(w.buf.len(), 9);

    let mut r = unwrap::Context::new(Trits(w.buf.clone()), Spongos::new());
    let link = r.join(&store, 9).unwrap();
    assert_eq!(link.0 .0, pattern(9, 11).0);

    let mut w2 = wrap::Context::new(Spongos::new());
    assert_eq!(w2.join(&store, &NTrytes(pattern(9, 13))), Err(Error::LinkNotFound));
}

#[test]
fn error_variants() {
    let mut sz = sizeof::Context::new();
    assert_eq!(sz.absorb_trytes(&Trytes(pattern(4, 0))), Err(Error::LengthNotMultipleOf3));
    assert_eq!(sz.absorb_mss_pk(&mss::PublicKey { trits: pattern(10, 0) }),
        Err(Error::KeySizeMismatch));
    assert_eq!(sz.ntrukem(&ntru::PublicKey { trits: pattern(ntru::PK_SIZE, 0) },
        &NTrytes(pattern(10, 0))), Err(Error::KeySizeMismatch));
    let sk = signer();
    assert_eq!(sz.mssig(&sk, &External(NTrytes(pattern(9, 0)))),
        Err(Error::HashSizeMismatch));
    assert_eq!(sz.get_size(), 0);

    let mut r = unwrap::Context::new(Trits(vec![1, 2]), Spongos::new());
    assert_eq!(r.absorb_trint3(), Err(Error::StreamTooShort));

    // A size header claiming more digit trytes than a machine word can need.
    let mut w = wrap::Context::new(Spongos::new());
    w.absorb_trint3(&Trint3(2)).unwrap();
    let mut r2 = unwrap::Context::new(Trits(vec![0, 2, 1]), Spongos::new());
    assert_eq!(r2.absorb_size(), Err(Error::SizeOverflow));
}

#[test]
fn sizeof_ops_run_counts_a_layout() {
    let sk = signer();
    let pk = ntru_sk().public_key();
    let store = LinkStore::new();
    let ops = vec![
        Op::Prim(Prim::AbsorbTrint3(Trint3(1))),
        Op::Prim(Prim::AbsorbTrytes(Trytes(pattern(9, 0)))),
        Op::Prim(Prim::Commit),
        Op::Prim(Prim::SqueezeMac(Mac(27))),
        Op::Repeated(vec![Trytes(pattern(3, 1)), Trytes(pattern(6, 2))]),
        Op::Prim(Prim::MssSign),
    ];
    let mut sz = sizeof::Context::new();
    iota_mam_protobuf3::ops::sizeof_ops_run(&mut sz, &ops, &sk, &pk, &store).unwrap();
    // 3 + (6 + 9) + 0 + 27 + (6 + 3) + (6 + 6) + sig_size(2)
    let expected = 3 + 15 + 27 + 9 + 12 + mss::sig_size(2);
    assert_eq!(sz.get_size(), expected);
}

fn layout() -> Vec<Op> {
    vec![
        Op::Prim(Prim::AbsorbTrint3(Trint3(-2))),
        Op::Prim(Prim::AbsorbTrytes(Trytes(pattern(12, 0)))),
        Op::Prim(Prim::AbsorbExternal(NTrytes(pattern(9, 1)))),
        Op::Fork(vec![Prim::MaskNTrytes(NTrytes(pattern(6, 2))), Prim::Commit,
            Prim::SqueezeMac(Mac(9))]),
        Op::Repeated(vec![Trytes(pattern(3, 3)), Trytes(pattern(0, 4))]),
        Op::Join(NTrytes(pattern(9, 11))),
        Op::Prim(Prim::NtruKem(NTrytes(pattern(ntru::KEY_SIZE, 5)))),
        Op::Prim(Prim::MssSign),
        Op::Prim(Prim::Commit),
        Op::Prim(Prim::SqueezeMac(Mac(27))),
    ]
}

#[test]
fn ops_runners_agree_on_size() {
    // The same layout, run through the size pass and the writing pass.
    let counting_signer = signer();
    let mut writing_signer = signer();
    let npk = ntru_sk().public_key();
    let mut store = LinkStore::new();
    store.add(pattern(9, 11), pattern(27, 12));

    let mut sz = sizeof::Context::new();
    iota_mam_protobuf3::ops::sizeof_ops_run(&mut sz, &layout(), &counting_signer, &npk, &store)
        .unwrap();

    let mut w = wrap::Context::new(Spongos::new());
    iota_mam_protobuf3::ops::wrap_ops_run(&mut w, &layout(), &mut writing_signer, &npk, &store)
        .unwrap();

    assert_eq!(sz.get_size(), w.buf.len());
    assert_eq!(writing_signer.used, 1);
    assert_eq!(counting_signer.used, 0);
}

#[test]
fn dump_reports_progress() {
    let mut sz = sizeof::Context::new();
    sz.absorb_trint3(&Trint3(0)).unwrap();
    assert_eq!(sz.dump(), 3);
    let mut w = wrap::Context::new(Spongos::new());
    w.absorb_trint3(&Trint3(0)).unwrap();
    assert_eq!(w.dump(), 3);
}
