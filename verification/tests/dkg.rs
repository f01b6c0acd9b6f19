use threshold_crypto::algebra::{hash_to_g1, G1Point, Scalar};
use threshold_crypto::{Error, NodeInfo};

fn run_dkg(ids: &[u32], t: usize) -> (Vec<NodeInfo>, Vec<Vec<u32>>) {
    let n = ids.len();
    let mut nodes: Vec<NodeInfo> = Vec::new();
    for &id in ids {
        nodes.push(NodeInfo::new(id, n, t).unwrap());
    }
    for j in 0..n {
        let dealer_id = nodes[j].id;
        let coef = nodes[j].cal_coef();
        for i in 0..n {
            if i == j {
                continue;
            }
            let share = nodes[j].cal_secret(nodes[i].id);
            nodes[i].set_node_coefs(dealer_id, &coef).unwrap();
            nodes[i].set_node_secrets(dealer_id, share).unwrap();
        }
    }
    let mut quals = Vec::new();
    for node in nodes.iter_mut() {
        quals.push(node.get_qual().unwrap());
        node.gen_pk_sk().unwrap();
    }
    (nodes, quals)
}

#[test]
fn happy_path_four_nodes() {
    let msg: &[u8] = b"hello";
    let (nodes, quals) = run_dkg(&[1, 2, 3, 4], 3);
    for q in &quals {
        assert_eq!(q, &vec![1, 2, 3, 4]);
    }
    let mpk = nodes[0].mpk().unwrap();
    for node in &nodes {
        assert!(mpk.equals(&node.mpk().unwrap()));
    }
    let sigs: Vec<G1Point> = nodes.iter().map(|n| n.cal_signature(msg).unwrap()).collect();
    for (node, sig) in nodes.iter().zip(sigs.iter()) {
        assert!(NodeInfo::verify_partial(&node.pk().unwrap(), msg, sig));
    }
    let hmsg = hash_to_g1(msg);
    // every 3-subset of the 4 partials combines into a valid signature
    let subsets: [[usize; 3]; 4] = [[0, 1, 2], [0, 1, 3], [0, 2, 3], [1, 2, 3]];
    for subset in subsets.iter() {
        let ids: Vec<u32> = subset.iter().map(|&i| nodes[i].id).collect();
        let partials: Vec<G1Point> = subset.iter().map(|&i| sigs[i]).collect();
        let combined = nodes[0].combine(&ids, &partials).unwrap();
        assert!(nodes[0].verify_single_signature(&hmsg, &combined));
    }
}

#[test]
fn minimal_threshold() {
    let msg: &[u8] = b"minimal";
    let (nodes, _) = run_dkg(&[10, 20, 30], 2);
    let sigs: Vec<G1Point> = nodes.iter().map(|n| n.cal_signature(msg).unwrap()).collect();
    let hmsg = hash_to_g1(msg);
    let ids = vec![10, 30];
    let partials = vec![sigs[0], sigs[2]];
    let combined = nodes[1].combine(&ids, &partials).unwrap();
    assert!(nodes[1].verify_single_signature(&hmsg, &combined));
    // a single partial is not enough
    let r = nodes[1].combine(&vec![10], &vec![sigs[0]]);
    assert_eq!(r.err(), Some(Error::InsufficientShares));
}

#[test]
fn misbehaving_dealer_is_evicted() {
    let ids = [1u32, 2, 3, 4];
    let n = ids.len();
    let t = 3;
    let mut nodes: Vec<NodeInfo> = ids.iter().map(|&id| NodeInfo::new(id, n, t).unwrap()).collect();
    for j in 0..n {
        let dealer_id = nodes[j].id;
        let coef = nodes[j].cal_coef();
        for i in 0..n {
            if i == j {
                continue;
            }
            let mut share = nodes[j].cal_secret(nodes[i].id);
            if j == 3 && i == 0 {
                // node 4 sends node 1 an off-by-one share
                share = share.add(&Scalar::one());
            }
            nodes[i].set_node_coefs(dealer_id, &coef).unwrap();
            nodes[i].set_node_secrets(dealer_id, share).unwrap();
        }
    }
    assert!(!nodes[0].verify(4));
    assert!(nodes[0].verify(2));
    let qual = nodes[0].get_qual().unwrap();
    assert_eq!(qual, vec![1, 2, 3]);
    assert!(nodes[0].gen_pk_sk().is_ok());
}

#[test]
fn invalid_construction_rejected() {
    assert_eq!(NodeInfo::new(0, 2, 3).err(), Some(Error::InvalidParameters));
    assert_eq!(NodeInfo::new(1, 0, 0).err(), Some(Error::InvalidParameters));
    assert_eq!(NodeInfo::new(1, 3, 0).err(), Some(Error::InvalidParameters));
}

#[test]
fn duplicate_deal_rejected() {
    let mut a = NodeInfo::new(1, 4, 3).unwrap();
    let b = NodeInfo::new(5, 4, 3).unwrap();
    let coef = b.cal_coef();
    let share = b.cal_secret(1);
    a.set_node_coefs(5, &coef).unwrap();
    assert_eq!(a.set_node_coefs(5, &coef), Err(Error::DuplicateCommitments));
    a.set_node_secrets(5, share).unwrap();
    assert_eq!(a.set_node_secrets(5, share), Err(Error::DuplicateShare));
}

#[test]
fn lagrange_coefficients_at_zero() {
    let ids = vec![1u32, 2, 3];
    let l1 = NodeInfo::cal_lambda(0, 3, 0, &ids).unwrap();
    let l2 = NodeInfo::cal_lambda(0, 3, 1, &ids).unwrap();
    let l3 = NodeInfo::cal_lambda(0, 3, 2, &ids).unwrap();
    assert!(l1.equals(&Scalar::from_u32(3)));
    assert!(l2.equals(&Scalar::from_u32(3).neg()));
    assert!(l3.equals(&Scalar::one()));
    assert!(l1.add(&l2).add(&l3).equals(&Scalar::one()));
}

#[test]
fn subthreshold_combination_fails_verification() {
    let msg: &[u8] = b"subthreshold";
    let (nodes, _) = run_dkg(&[1, 2, 3, 4], 3);
    let sigs: Vec<G1Point> = nodes.iter().map(|n| n.cal_signature(msg).unwrap()).collect();
    let hmsg = hash_to_g1(msg);
    // interpolate from only two partials, below the threshold of three
    let two = vec![1u32, 2];
    let l1 = NodeInfo::cal_lambda(0, 2, 0, &two).unwrap();
    let l2 = NodeInfo::cal_lambda(0, 2, 1, &two).unwrap();
    let forged = sigs[0].mul(&l1).add(&sigs[1].mul(&l2));
    assert!(!nodes[0].verify_single_signature(&hmsg, &forged));
}

#[test]
fn out_of_order_operations_rejected() {
    let mut node = NodeInfo::new(9, 3, 2).unwrap();
    assert_eq!(node.cal_signature(b"msg").err(), Some(Error::OutOfOrder));
    assert_eq!(node.gen_pk_sk(), Err(Error::OutOfOrder));
    assert_eq!(node.mpk().err(), Some(Error::NoPolyCoefficient));
    assert_eq!(node.pk().err(), Some(Error::NoPolyCoefficient));
    let peer = NodeInfo::new(8, 3, 2).unwrap();
    let coef = peer.cal_coef();
    let share = peer.cal_secret(9);
    node.set_node_coefs(8, &coef).unwrap();
    node.set_node_secrets(8, share).unwrap();
    node.get_qual().unwrap();
    // once qualified, the collection phase is over
    assert_eq!(node.set_node_coefs(7, &coef), Err(Error::OutOfOrder));
    assert_eq!(node.set_node_secrets(7, share), Err(Error::OutOfOrder));
}

#[test]
fn qualification_needs_threshold_many() {
    let mut lonely = NodeInfo::new(7, 2, 2).unwrap();
    assert_eq!(lonely.get_qual(), Err(Error::QualTooSmall));
}

#[test]
fn commitment_length_checked() {
    let mut a = NodeInfo::new(1, 4, 3).unwrap();
    let b = NodeInfo::new(5, 4, 2).unwrap();
    let coef = b.cal_coef();
    assert_eq!(a.set_node_coefs(5, &coef), Err(Error::LengthMismatch));
}

#[test]
fn degenerate_interpolation_detected() {
    let ids = vec![5u32, 5];
    assert_eq!(
        NodeInfo::cal_lambda(0, 2, 0, &ids).err(),
        Some(Error::DegenerateInterpolation)
    );
}

#[test]
fn combine_checks_input_lengths() {
    let (nodes, _) = run_dkg(&[10, 20, 30], 2);
    let sig = nodes[0].cal_signature(b"x").unwrap();
    let r = nodes[0].combine(&vec![10, 20, 30], &vec![sig, sig]);
    assert_eq!(r.err(), Some(Error::LengthMismatch));
}

#[test]
fn own_id_is_implicit_dealer() {
    let mut a = NodeInfo::new(3, 3, 2).unwrap();
    let b = NodeInfo::new(4, 3, 2).unwrap();
    let coef = b.cal_coef();
    let share = b.cal_secret(3);
    // deals claiming to come from this node itself are duplicates
    assert_eq!(a.set_node_coefs(3, &coef), Err(Error::DuplicateCommitments));
    assert_eq!(a.set_node_secrets(3, share), Err(Error::DuplicateShare));
}

#[test]
fn error_identifiers_are_stable() {
    assert_eq!(Error::QualTooSmall.describe(), "QualTooSmall");
    assert_eq!(Error::MissingCoefficient(7).describe(), "MissingCoefficient");
    assert_eq!(Error::DegenerateInterpolation.describe(), "DegenerateInterpolation");
    assert_eq!(Error::OutOfOrder.describe(), "OutOfOrder");
}
