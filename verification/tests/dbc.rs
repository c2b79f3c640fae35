use lnpbp::bp::dbc::lockscript::find_key;
use lnpbp::bp::dbc::spk::method_of;
use lnpbp::bp::dbc::taproot::TaprootPlacement;
use lnpbp::bp::dbc::tx::tx_carries;
use lnpbp::bp::dbc::{
    Container, Error, Proof, KeysetContainer, LockscriptContainer, PubkeyContainer, ScriptEncodeData, SpkContainer,
    ScriptEncodeMethod, TaprootContainer, Tx, TxContainer, TxIn, TxOut, TxSupplement, TxoutContainer,
};

/// The generator of the curve and its first multiples, in compressed form.
const G1: [u8; 33] = [2, 121, 190, 102, 126, 249, 220, 187, 172, 85, 160, 98, 149, 206, 135, 11, 7, 2, 155, 252, 219, 45, 206, 40, 217, 89, 242, 129, 91, 22, 248, 23, 152];
const G2: [u8; 33] = [2, 198, 4, 127, 148, 65, 237, 125, 109, 48, 69, 64, 110, 149, 192, 124, 216, 92, 119, 142, 75, 140, 239, 60, 167, 171, 172, 9, 185, 92, 112, 158, 229];
const G3: [u8; 33] = [2, 249, 48, 138, 1, 146, 88, 195, 16, 73, 52, 79, 133, 248, 157, 82, 41, 181, 49, 200, 69, 131, 111, 153, 176, 134, 1, 241, 19, 188, 224, 54, 249];

const TAG: [u8; 32] = [0xAA; 32];
const VALUE: [u8; 32] = [0x55; 32];
const OTHER_VALUE: [u8; 32] = [0x56; 32];

fn x_of(key: &[u8; 33]) -> [u8; 32] {
    let mut x = [0u8; 32];
    x.copy_from_slice(&key[1..]);
    x
}

fn p2pkh_of_zeros() -> Vec<u8> {
    let mut s = vec![0x76, 0xa9, 0x14];
    s.extend_from_slice(&[0u8; 20]);
    s.extend_from_slice(&[0x88, 0xac]);
    s
}

fn p2sh_of_zeros() -> Vec<u8> {
    let mut s = vec![0xa9, 0x14];
    s.extend_from_slice(&[0u8; 20]);
    s.push(0x87);
    s
}

fn p2pk_of(key: &[u8; 33]) -> Vec<u8> {
    let mut s = vec![33];
    s.extend_from_slice(key);
    s.push(0xac);
    s
}

fn p2tr_of_zeros() -> Vec<u8> {
    let mut s = vec![0x51, 0x20];
    s.extend_from_slice(&[0u8; 32]);
    s
}

fn sample_tx() -> Tx {
    Tx {
        version: 2,
        lock_time: 0,
        inputs: vec![TxIn { txid: [9; 32], vout: 1, script_sig: vec![], sequence: 0xffff_ffff }],
        outputs: vec![
            TxOut { value: 0, script_pubkey: vec![0x6a, 0x01, 0x00] },
            TxOut { value: 1000, script_pubkey: p2pkh_of_zeros() },
            TxOut { value: 2000, script_pubkey: p2pk_of(&G2) },
        ],
    }
}

fn sample_container() -> TxContainer {
    TxContainer { tx: sample_tx(), pubkey: G1, source: ScriptEncodeData::SinglePubkey, tag: TAG }
}

const NO_SUPPLEMENT: TxSupplement = TxSupplement { change_output: None, only_output: None };

#[test]
fn pubkey_commit_gives_the_tweaked_key() {
    let made = PubkeyContainer { pubkey: G1, tag: TAG }.commit(&VALUE).unwrap();
    assert_eq!(made.committed, [2, 158, 92, 34, 15, 149, 220, 25, 88, 21, 27, 196, 161, 235, 137, 65, 176, 200, 100, 80, 96, 69, 29, 196, 237, 19, 84, 96, 123, 61, 130, 61, 119]);
    assert_eq!(made.proof.tweak, [14, 99, 152, 223, 187, 248, 205, 245, 201, 36, 200, 91, 252, 139, 170, 116, 17, 149, 55, 118, 164, 20, 221, 61, 81, 17, 153, 205, 63, 249, 113, 185]);
    assert_eq!(made.proof.attempt, 0);
    assert_eq!(made.proof.container, PubkeyContainer { pubkey: G1, tag: TAG });
    assert_eq!(made.proof.value, VALUE);
    assert_ne!(made.committed, G1);
}

#[test]
fn pubkey_commit_is_deterministic() {
    let c = PubkeyContainer { pubkey: G2, tag: TAG };
    assert_eq!(c.commit(&VALUE), c.commit(&VALUE));
    assert_ne!(c.commit(&VALUE), c.commit(&OTHER_VALUE));
}

#[test]
fn pubkey_commitment_verifies() {
    let made = PubkeyContainer { pubkey: G1, tag: TAG }.commit(&VALUE).unwrap();
    assert!(made.proof.verify(&made.committed));
}

#[test]
fn pubkey_tampering_is_detected() {
    let made = PubkeyContainer { pubkey: G1, tag: TAG }.commit(&VALUE).unwrap();
    for i in 0..33 {
        let mut other = made.committed;
        other[i] ^= 1;
        assert!(!made.proof.verify(&other));
    }
    let mut forged = made.proof;
    forged.value = OTHER_VALUE;
    assert!(!forged.verify(&made.committed));
    let mut forged = made.proof;
    forged.tweak[0] ^= 1;
    assert!(!forged.verify(&made.committed));
}

#[test]
fn pubkey_that_is_no_point_is_refused() {
    let c = PubkeyContainer { pubkey: [0u8; 33], tag: TAG };
    assert_eq!(c.commit(&VALUE), Err(Error::UnsupportedContainerKind));
    let mut off_curve = G1;
    off_curve[0] = 5;
    let c = PubkeyContainer { pubkey: off_curve, tag: TAG };
    assert_eq!(c.commit(&VALUE), Err(Error::UnsupportedContainerKind));
}

#[test]
fn keyset_commit_tweaks_one_key() {
    let c = KeysetContainer { keys: vec![G1, G2, G3], tag: TAG };
    let made = c.commit(&VALUE).unwrap();
    assert_eq!(made.proof.index, 1);
    assert_eq!(made.committed.len(), 3);
    for i in 0..3 {
        if i == made.proof.index {
            assert_eq!(made.committed[i], [2, 30, 197, 207, 2, 11, 134, 1, 42, 11, 189, 148, 144, 19, 78, 37, 196, 111, 221, 230, 21, 203, 42, 65, 230, 49, 79, 0, 255, 131, 211, 46, 93]);
        } else {
            assert_eq!(made.committed[i], c.keys[i]);
        }
    }
    assert_eq!(made.proof.container, c);
    assert_eq!(c.commit(&VALUE), Ok(made));
}

#[test]
fn keyset_commitment_verifies_and_tampering_is_detected() {
    let c = KeysetContainer { keys: vec![G3, G1, G2], tag: TAG };
    let made = c.commit(&VALUE).unwrap();
    assert!(made.proof.verify(&made.committed));
    for k in 0..3 {
        let mut other = made.committed.clone();
        other[k][7] ^= 0x80;
        assert!(!made.proof.verify(&other));
    }
    let mut shorter = made.committed.clone();
    shorter.pop();
    assert!(!made.proof.verify(&shorter));
    let mut forged = made.proof.clone();
    forged.value = OTHER_VALUE;
    assert!(!forged.verify(&made.committed));
    let mut forged = made.proof.clone();
    forged.index = (forged.index + 1) % 3;
    assert!(!forged.verify(&made.committed));
}

#[test]
fn keyset_without_keys_has_no_carrier() {
    let c = KeysetContainer { keys: vec![], tag: TAG };
    assert_eq!(c.commit(&VALUE), Err(Error::NoCommittableCarrier));
}

#[test]
fn script_scan_finds_the_first_key() {
    assert_eq!(find_key(&[]), Some(None));
    assert_eq!(find_key(&[0x51, 0x51]), Some(None));
    assert_eq!(find_key(&p2pk_of(&G1)), Some(Some(1)));
    let mut two = vec![0x02, 0x21, 0x02];
    two.extend_from_slice(&p2pk_of(&G2));
    two.extend_from_slice(&p2pk_of(&G3));
    assert_eq!(find_key(&two), Some(Some(4)));
    // 33 bytes that do not start like a key are skipped
    let mut data = vec![33u8];
    data.extend_from_slice(&[7u8; 33]);
    data.extend_from_slice(&p2pk_of(&G1));
    assert_eq!(find_key(&data), Some(Some(35)));
    // a push that runs over the end
    assert_eq!(find_key(&[0x05, 1, 2]), None);
    assert_eq!(find_key(&[0x4c]), None);
    assert_eq!(find_key(&[0x4d, 0x01]), None);
    assert_eq!(find_key(&[0x4e, 0x01, 0x00, 0x00, 0x00]), None);
    assert_eq!(find_key(&[0x4c, 0x02, 9, 9, 0x51]), Some(None));
    assert_eq!(find_key(&[0x4d, 0x02, 0x00, 9, 9]), Some(None));
    assert_eq!(find_key(&[0x4e, 0x01, 0x00, 0x00, 0x00, 9]), Some(None));
}

#[test]
fn lockscript_without_key_gets_a_carrier() {
    let c = LockscriptContainer { script: vec![0x51], tag: TAG };
    let made = c.commit(&VALUE).unwrap();
    assert_eq!(made.committed, vec![81, 106, 32, 248, 6, 51, 210, 121, 143, 204, 38, 178, 83, 68, 247, 162, 194, 241, 107, 108, 6, 74, 46, 243, 180, 61, 7, 34, 79, 240, 121, 145, 75, 208, 226]);
    assert_eq!(made.proof.placement, lnpbp::bp::dbc::lockscript::ScriptPlacement::Carrier);
    assert!(made.proof.verify(&made.committed));
    assert_eq!(c.commit(&VALUE), Ok(made));
}

#[test]
fn lockscript_with_key_tweaks_the_key() {
    let c = LockscriptContainer { script: p2pk_of(&G1), tag: TAG };
    let made = c.commit(&VALUE).unwrap();
    assert_eq!(made.committed, vec![33, 2, 5, 197, 80, 48, 234, 123, 244, 251, 71, 248, 215, 113, 210, 120, 248, 100, 5, 75, 135, 133, 205, 157, 13, 3, 77, 9, 103, 206, 9, 169, 200, 76, 172]);
    assert!(matches!(
        made.proof.placement,
        lnpbp::bp::dbc::lockscript::ScriptPlacement::Key { offset: 1, .. }
    ));
    assert!(made.proof.verify(&made.committed));
    for i in 0..made.committed.len() {
        let mut other = made.committed.clone();
        other[i] ^= 4;
        assert!(!made.proof.verify(&other));
    }
    let mut forged = made.proof.clone();
    forged.value = OTHER_VALUE;
    assert!(!forged.verify(&made.committed));
}

#[test]
fn lockscript_that_ends_inside_a_push_is_refused() {
    let c = LockscriptContainer { script: vec![0x21, 0x02, 0x03], tag: TAG };
    assert_eq!(c.commit(&VALUE), Err(Error::UnsupportedContainerKind));
}

#[test]
fn script_pubkey_shapes() {
    assert_eq!(method_of(&p2pk_of(&G1)), Some(ScriptEncodeMethod::Bare));
    assert_eq!(method_of(&p2pkh_of_zeros()), Some(ScriptEncodeMethod::PubkeyHash));
    assert_eq!(method_of(&p2sh_of_zeros()), Some(ScriptEncodeMethod::ScriptHash));
    assert_eq!(method_of(&p2tr_of_zeros()), Some(ScriptEncodeMethod::Taproot));
    assert_eq!(method_of(&[]), None);
    assert_eq!(method_of(&[0x6a, 0x01, 0x00]), None);
    let mut almost = p2pkh_of_zeros();
    almost[24] = 0xad;
    assert_eq!(method_of(&almost), None);
}

#[test]
fn script_pubkey_commit_follows_the_shape() {
    let bare = SpkContainer {
        script_pubkey: p2pk_of(&G3),
        pubkey: G1,
        source: ScriptEncodeData::SinglePubkey,
        tag: TAG,
    };
    let made = bare.commit(&VALUE).unwrap();
    assert_eq!(made.committed, vec![33, 2, 158, 92, 34, 15, 149, 220, 25, 88, 21, 27, 196, 161, 235, 137, 65, 176, 200, 100, 80, 96, 69, 29, 196, 237, 19, 84, 96, 123, 61, 130, 61, 119, 172]);
    assert_eq!(made.proof.method, ScriptEncodeMethod::Bare);
    assert!(made.proof.verify(&made.committed));

    let pkh = SpkContainer {
        script_pubkey: p2pkh_of_zeros(),
        pubkey: G1,
        source: ScriptEncodeData::SinglePubkey,
        tag: TAG,
    };
    let made = pkh.commit(&VALUE).unwrap();
    assert_eq!(made.committed, vec![118, 169, 20, 119, 191, 108, 218, 240, 166, 199, 81, 65, 213, 231, 222, 147, 10, 134, 205, 109, 254, 104, 162, 136, 172]);
    assert_eq!(made.proof.method, ScriptEncodeMethod::PubkeyHash);
    assert!(made.proof.verify(&made.committed));

    let sh = SpkContainer {
        script_pubkey: p2sh_of_zeros(),
        pubkey: G1,
        source: ScriptEncodeData::LockScript(vec![0x51]),
        tag: TAG,
    };
    let made = sh.commit(&VALUE).unwrap();
    assert_eq!(made.committed, vec![169, 20, 240, 155, 47, 171, 213, 221, 100, 34, 1, 54, 161, 242, 26, 248, 107, 64, 13, 159, 42, 235, 135]);
    assert_eq!(made.proof.method, ScriptEncodeMethod::ScriptHash);
    assert!(made.proof.verify(&made.committed));

    let tr = SpkContainer {
        script_pubkey: p2tr_of_zeros(),
        pubkey: G1,
        source: ScriptEncodeData::SinglePubkey,
        tag: TAG,
    };
    let made = tr.commit(&VALUE).unwrap();
    assert_eq!(made.committed, vec![81, 32, 138, 224, 255, 177, 144, 122, 92, 28, 213, 76, 124, 26, 35, 95, 193, 26, 76, 198, 174, 205, 91, 129, 226, 17, 79, 241, 133, 135, 20, 160, 90, 60]);
    assert_eq!(made.proof.method, ScriptEncodeMethod::Taproot);
    assert!(made.proof.verify(&made.committed));

    let tree = SpkContainer {
        script_pubkey: p2tr_of_zeros(),
        pubkey: G1,
        source: ScriptEncodeData::Taproot([0x77; 32]),
        tag: TAG,
    };
    let made = tree.commit(&VALUE).unwrap();
    assert_eq!(made.committed, vec![81, 32, 182, 1, 199, 204, 24, 17, 178, 209, 74, 204, 180, 225, 63, 58, 6, 30, 191, 83, 69, 194, 51, 50, 24, 70, 219, 53, 147, 253, 222, 29, 196, 225]);
    assert!(made.proof.verify(&made.committed));
}

#[test]
fn script_pubkey_of_unknown_shape_is_refused() {
    let c = SpkContainer {
        script_pubkey: vec![0x6a, 0x01, 0x00],
        pubkey: G1,
        source: ScriptEncodeData::SinglePubkey,
        tag: TAG,
    };
    assert_eq!(c.commit(&VALUE), Err(Error::UnsupportedContainerKind));
    // a shape whose source does not fit it
    let c = SpkContainer {
        script_pubkey: p2sh_of_zeros(),
        pubkey: G1,
        source: ScriptEncodeData::SinglePubkey,
        tag: TAG,
    };
    assert_eq!(c.commit(&VALUE), Err(Error::UnsupportedContainerKind));
}

#[test]
fn script_pubkey_tampering_is_detected() {
    let c = SpkContainer {
        script_pubkey: p2pkh_of_zeros(),
        pubkey: G1,
        source: ScriptEncodeData::SinglePubkey,
        tag: TAG,
    };
    let made = c.commit(&VALUE).unwrap();
    for i in 0..made.committed.len() {
        let mut other = made.committed.clone();
        other[i] ^= 1;
        assert!(!made.proof.verify(&other));
    }
    let mut forged = made.proof.clone();
    forged.value = OTHER_VALUE;
    assert!(!forged.verify(&made.committed));
}

#[test]
fn taproot_without_tree_commits_into_the_key() {
    let c = TaprootContainer { internal_key: x_of(&G1), merkle_root: None, tag: TAG };
    let made = c.commit(&VALUE).unwrap();
    assert!(matches!(made.proof.placement, TaprootPlacement::InternalKey { .. }));
    assert_eq!(made.committed.to_vec(), vec![81, 32, 138, 224, 255, 177, 144, 122, 92, 28, 213, 76, 124, 26, 35, 95, 193, 26, 76, 198, 174, 205, 91, 129, 226, 17, 79, 241, 133, 135, 20, 160, 90, 60][2..].to_vec());
    assert!(made.proof.verify(&made.committed));
    assert_eq!(c.commit(&VALUE), Ok(made));
    let mut other = made.committed;
    other[31] ^= 1;
    assert!(!made.proof.verify(&other));
}

#[test]
fn taproot_with_tree_commits_into_a_leaf() {
    let c = TaprootContainer { internal_key: x_of(&G1), merkle_root: Some([0x77; 32]), tag: TAG };
    let made = c.commit(&VALUE).unwrap();
    assert_eq!(
        made.proof.placement,
        TaprootPlacement::ScriptLeaf { leaf: [114, 166, 31, 111, 29, 203, 99, 106, 237, 110, 192, 184, 204, 48, 57, 247, 246, 181, 56, 184, 192, 46, 132, 122, 130, 36, 97, 190, 228, 229, 144, 125] }
    );
    assert_eq!(made.committed.to_vec(), vec![81, 32, 182, 1, 199, 204, 24, 17, 178, 209, 74, 204, 180, 225, 63, 58, 6, 30, 191, 83, 69, 194, 51, 50, 24, 70, 219, 53, 147, 253, 222, 29, 196, 225][2..].to_vec());
    assert!(made.proof.verify(&made.committed));
    let mut forged = made.proof;
    forged.value = OTHER_VALUE;
    assert!(!forged.verify(&made.committed));
}

#[test]
fn txout_commit_changes_the_named_output_only() {
    let c = TxoutContainer {
        outputs: sample_tx().outputs,
        index: 2,
        pubkey: G1,
        source: ScriptEncodeData::SinglePubkey,
        tag: TAG,
    };
    let made = c.commit(&VALUE).unwrap();
    assert_eq!(made.committed.len(), 3);
    assert_eq!(made.committed[0], c.outputs[0]);
    assert_eq!(made.committed[1], c.outputs[1]);
    assert_eq!(made.committed[2].value, 2000);
    assert_eq!(made.committed[2].script_pubkey, vec![33, 2, 158, 92, 34, 15, 149, 220, 25, 88, 21, 27, 196, 161, 235, 137, 65, 176, 200, 100, 80, 96, 69, 29, 196, 237, 19, 84, 96, 123, 61, 130, 61, 119, 172]);
    assert!(made.proof.verify(&made.committed));
    let mut other = made.committed.clone();
    other[0].value = 1;
    assert!(!made.proof.verify(&other));
}

#[test]
fn txout_index_behind_the_outputs_is_refused() {
    let c = TxoutContainer {
        outputs: sample_tx().outputs,
        index: 3,
        pubkey: G1,
        source: ScriptEncodeData::SinglePubkey,
        tag: TAG,
    };
    assert_eq!(c.commit(&VALUE), Err(Error::NoCommittableOutput));
    let c = TxoutContainer { index: 0, ..c };
    assert_eq!(c.commit(&VALUE), Err(Error::UnsupportedContainerKind));
}

#[test]
fn tx_commit_takes_the_lowest_eligible_output() {
    let c = sample_container();
    let made = c.commit(&NO_SUPPLEMENT, &VALUE).unwrap();
    assert_eq!(made.proof.index, 1);
    assert_eq!(made.committed.outputs[0], c.tx.outputs[0]);
    assert_eq!(made.committed.outputs[2], c.tx.outputs[2]);
    assert_eq!(made.committed.outputs[1].value, 1000);
    assert_eq!(made.committed.outputs[1].script_pubkey, vec![118, 169, 20, 119, 191, 108, 218, 240, 166, 199, 81, 65, 213, 231, 222, 147, 10, 134, 205, 109, 254, 104, 162, 136, 172]);
    assert_eq!(made.committed.inputs, c.tx.inputs);
    assert_eq!(made.committed.version, 2);
    assert_eq!(made.committed.lock_time, 0);
    assert_eq!(made.proof.container, c);
    assert_eq!(made.proof.value, VALUE);
}

#[test]
fn tx_commit_avoids_the_change_output() {
    let c = sample_container();
    let s = TxSupplement { change_output: Some(1), only_output: None };
    let made = c.commit(&s, &VALUE).unwrap();
    assert_eq!(made.proof.index, 2);
    assert_eq!(made.proof.supplement, s);
    assert_eq!(made.committed.outputs[1], c.tx.outputs[1]);
    assert_eq!(made.committed.outputs[2].script_pubkey, vec![33, 2, 158, 92, 34, 15, 149, 220, 25, 88, 21, 27, 196, 161, 235, 137, 65, 176, 200, 100, 80, 96, 69, 29, 196, 237, 19, 84, 96, 123, 61, 130, 61, 119, 172]);
    let only = TxSupplement { change_output: None, only_output: Some(2) };
    let made = c.commit(&only, &VALUE).unwrap();
    assert_eq!(made.proof.index, 2);
}

#[test]
fn tx_with_every_output_excluded_is_refused() {
    let c = sample_container();
    let s = TxSupplement { change_output: None, only_output: Some(0) };
    assert_eq!(c.commit(&s, &VALUE), Err(Error::NoCommittableOutput));
    let s = TxSupplement { change_output: Some(1), only_output: Some(1) };
    assert_eq!(c.commit(&s, &VALUE), Err(Error::NoCommittableOutput));
    let s = TxSupplement { change_output: None, only_output: Some(7) };
    assert_eq!(c.commit(&s, &VALUE), Err(Error::NoCommittableOutput));
}

#[test]
fn tx_without_carrier_is_refused() {
    let mut c = sample_container();
    c.tx.outputs.truncate(1);
    assert_eq!(c.commit(&NO_SUPPLEMENT, &VALUE), Err(Error::NoCommittableCarrier));
    c.tx.outputs.clear();
    assert_eq!(c.commit(&NO_SUPPLEMENT, &VALUE), Err(Error::NoCommittableCarrier));
}

#[test]
fn tx_commit_is_deterministic() {
    let c = sample_container();
    let s = TxSupplement { change_output: Some(1), only_output: None };
    assert_eq!(c.commit(&s, &VALUE), c.commit(&s, &VALUE));
    assert_eq!(c.commit(&NO_SUPPLEMENT, &VALUE), c.commit(&NO_SUPPLEMENT, &VALUE));
}

#[test]
fn tx_commitment_verifies_and_tampering_is_detected() {
    let c = sample_container();
    let made = c.commit(&NO_SUPPLEMENT, &VALUE).unwrap();
    assert!(made.proof.verify(&made.committed));
    for out in 0..3 {
        for i in 0..made.committed.outputs[out].script_pubkey.len() {
            let mut other = made.committed.clone();
            other.outputs[out].script_pubkey[i] ^= 1;
            assert!(!made.proof.verify(&other));
        }
    }
    let mut other = made.committed.clone();
    other.lock_time = 1;
    assert!(!made.proof.verify(&other));
    let mut other = made.committed.clone();
    other.inputs[0].txid[0] ^= 1;
    assert!(!made.proof.verify(&other));
    let mut other = made.committed.clone();
    other.inputs[0].script_sig.push(0x51);
    assert!(!made.proof.verify(&other));
    let mut other = made.committed.clone();
    other.outputs[1].value += 1;
    assert!(!made.proof.verify(&other));
    let mut forged = made.proof.clone();
    forged.value = OTHER_VALUE;
    assert!(!forged.verify(&made.committed));
    let mut forged = made.proof.clone();
    forged.supplement.change_output = Some(1);
    assert!(!forged.verify(&made.committed));
}

#[test]
fn committed_tx_carries_its_value() {
    let c = sample_container();
    let made = c.commit(&NO_SUPPLEMENT, &VALUE).unwrap();
    let source = ScriptEncodeData::SinglePubkey;
    assert!(tx_carries(&made.committed, &G1, &source, &TAG, &VALUE));
    assert!(!tx_carries(&made.committed, &G1, &source, &TAG, &OTHER_VALUE));
    assert!(!tx_carries(&made.committed, &G2, &source, &TAG, &VALUE));
    assert!(!tx_carries(&made.committed, &G1, &source, &[0xAB; 32], &VALUE));
    assert!(!tx_carries(&c.tx, &G1, &source, &TAG, &VALUE));
}

#[test]
fn tx_committed_under_a_supplement_carries_its_value() {
    let c = sample_container();
    let source = ScriptEncodeData::SinglePubkey;
    // the first output that could carry is set aside as change
    let change = TxSupplement { change_output: Some(1), only_output: None };
    let made = c.commit(&change, &VALUE).unwrap();
    assert_eq!(made.proof.index, 2);
    assert!(tx_carries(&made.committed, &G1, &source, &TAG, &VALUE));
    assert!(!tx_carries(&made.committed, &G1, &source, &TAG, &OTHER_VALUE));
    // all but the last output are to be left alone
    let only = TxSupplement { change_output: None, only_output: Some(2) };
    let made = c.commit(&only, &VALUE).unwrap();
    assert!(tx_carries(&made.committed, &G1, &source, &TAG, &VALUE));
    let mut empty = c.tx.clone();
    empty.outputs.clear();
    assert!(!tx_carries(&empty, &G1, &source, &TAG, &VALUE));
}

#[test]
fn txid_is_the_double_hash_of_the_encoding() {
    assert_eq!(
        sample_tx().txid(),
        Some([
            89, 143, 154, 54, 183, 117, 29, 168, 47, 3, 28, 105, 57, 119, 60, 118, 41, 156, 109,
            212, 233, 225, 242, 118, 122, 50, 131, 196, 183, 189, 186, 232
        ])
    );
    let tx = Tx {
        version: 1,
        lock_time: 3,
        inputs: vec![
            TxIn { txid: [9; 32], vout: 1, script_sig: vec![0x51, 0x52], sequence: 5 },
            TxIn { txid: [8; 32], vout: 0, script_sig: vec![], sequence: 0 },
        ],
        outputs: vec![TxOut { value: 7, script_pubkey: vec![0x51] }],
    };
    let id = [
        105, 226, 211, 194, 40, 129, 248, 13, 203, 200, 148, 127, 146, 192, 196, 86, 145, 10, 130,
        200, 79, 193, 123, 195, 78, 169, 156, 47, 166, 195, 122, 109,
    ];
    assert_eq!(tx.txid(), Some(id));
    assert_eq!(tx.size(), Some(64 + (64 + 2) + 64 + (32 + 1)));
    // every part of the transaction goes into its identifier
    let mut other = tx.clone();
    other.outputs[0].value = 8;
    assert_ne!(other.txid(), Some(id));
    let mut other = tx.clone();
    other.inputs[0].script_sig.push(0);
    assert_ne!(other.txid(), Some(id));
    let mut other = tx.clone();
    other.lock_time = 4;
    assert_ne!(other.txid(), Some(id));
    let mut other = tx.clone();
    other.version = 2;
    assert_ne!(other.txid(), Some(id));
    let mut other = tx.clone();
    other.inputs[1].sequence = 1;
    assert_ne!(other.txid(), Some(id));
}

fn commit_through<C: Container<Supplement = ()>>(c: &C) -> Result<C::Commitment, Error> {
    c.embed_commit(&(), &VALUE)
}

fn accepted<P: Proof>(proof: &P, committed: &P::Committed) -> bool {
    proof.verify_commitment(committed)
}

#[test]
fn every_layer_answers_to_the_common_interface() {
    let key = PubkeyContainer { pubkey: G1, tag: TAG };
    let made = commit_through(&key).unwrap();
    assert_eq!(Ok(made), key.commit(&VALUE));
    assert!(accepted(&made.proof, &made.committed));
    assert!(!accepted(&made.proof, &G1));

    let set = KeysetContainer { keys: vec![G1, G2], tag: TAG };
    let made = commit_through(&set).unwrap();
    assert!(accepted(&made.proof, &made.committed));
    assert!(!accepted(&made.proof, &set.keys));

    let script = LockscriptContainer { script: vec![0x51], tag: TAG };
    let made = commit_through(&script).unwrap();
    assert!(accepted(&made.proof, &made.committed));
    assert!(!accepted(&made.proof, &script.script));

    let spk = SpkContainer {
        script_pubkey: p2pkh_of_zeros(),
        pubkey: G1,
        source: ScriptEncodeData::SinglePubkey,
        tag: TAG,
    };
    let made = commit_through(&spk).unwrap();
    assert!(accepted(&made.proof, &made.committed));
    assert!(!accepted(&made.proof, &spk.script_pubkey));

    let taproot = TaprootContainer { internal_key: x_of(&G1), merkle_root: None, tag: TAG };
    let made = commit_through(&taproot).unwrap();
    assert!(accepted(&made.proof, &made.committed));
    assert!(!accepted(&made.proof, &taproot.internal_key));

    let txout = TxoutContainer {
        outputs: sample_tx().outputs,
        index: 1,
        pubkey: G1,
        source: ScriptEncodeData::SinglePubkey,
        tag: TAG,
    };
    let made = commit_through(&txout).unwrap();
    assert!(accepted(&made.proof, &made.committed));
    assert!(!accepted(&made.proof, &txout.outputs));

    let tx = sample_container();
    let made = tx.embed_commit(&NO_SUPPLEMENT, &VALUE).unwrap();
    assert_eq!(Ok(made.clone()), tx.commit(&NO_SUPPLEMENT, &VALUE));
    assert!(accepted(&made.proof, &made.committed));
    assert!(!accepted(&made.proof, &tx.tx));
    assert_eq!(
        commit_through(&KeysetContainer { keys: vec![], tag: TAG }),
        Err(Error::NoCommittableCarrier)
    );
}
