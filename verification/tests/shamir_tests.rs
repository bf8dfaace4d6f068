use shamir::{decode, encode, Error, FieldElement, Hex, Share, GF256};

fn secret_elements(bytes: &[u8]) -> Vec<GF256> {
    GF256::from_bytes(bytes)
}

#[test]
fn four_of_six_shares_recover_the_secret() {
    let data = secret_elements("This".as_bytes());
    let shares = encode(data.clone(), 6, 4).unwrap();
    assert_eq!(shares.len(), 6);
    for a in 0..6 {
        for b in (a + 1)..6 {
            for c in (b + 1)..6 {
                for d in (c + 1)..6 {
                    let subset = vec![
                        shares[a].clone(),
                        shares[b].clone(),
                        shares[c].clone(),
                        shares[d].clone(),
                    ];
                    let recovered = decode(subset).unwrap();
                    assert_eq!(GF256::to_bytes(recovered.as_slice()), "This".as_bytes());
                }
            }
        }
    }
}

#[test]
fn order_of_shares_does_not_matter() {
    let data = secret_elements("This".as_bytes());
    let shares = encode(data, 6, 4).unwrap();
    let subset = vec![
        shares[3].clone(),
        shares[0].clone(),
        shares[5].clone(),
        shares[1].clone(),
    ];
    let recovered = decode(subset).unwrap();
    assert_eq!(GF256::to_bytes(recovered.as_slice()), "This".as_bytes());
}

#[test]
fn duplicated_x_coordinate_is_rejected() {
    let data = secret_elements("This".as_bytes());
    let shares = encode(data, 6, 4).unwrap();
    let subset = vec![
        shares[0].clone(),
        shares[2].clone(),
        shares[1].clone(),
        shares[2].clone(),
    ];
    assert_eq!(decode(subset), Err(Error::DuplicateXCoordinate));
}

#[test]
fn mismatched_share_shapes_are_rejected() {
    let data = secret_elements(&[1, 2, 3]);
    let shares = encode(data, 3, 2).unwrap();
    let mut short = shares[1].clone();
    short.y.pop();
    let subset = vec![shares[0].clone(), short];
    assert_eq!(decode(subset), Err(Error::MismatchedShareShape));
}

#[test]
fn no_shares_at_all_are_rejected() {
    assert_eq!(decode(Vec::new()), Err(Error::InsufficientShares));
}

#[test]
fn threshold_one_degenerates_to_the_secret() {
    let data = secret_elements(&[42, 7, 99]);
    let shares = encode(data, 3, 1).unwrap();
    for share in shares.iter() {
        assert_eq!(GF256::to_bytes(share.y.as_slice()), vec![42, 7, 99]);
        let recovered = decode(vec![share.clone()]).unwrap();
        assert_eq!(GF256::to_bytes(recovered.as_slice()), vec![42, 7, 99]);
    }
}

#[test]
fn maximal_recipient_count_succeeds() {
    let data = secret_elements(&[0x5a]);
    let shares = encode(data, 255, 3).unwrap();
    assert_eq!(shares.len(), 255);
    let subset = vec![shares[17].clone(), shares[200].clone(), shares[254].clone()];
    let recovered = decode(subset).unwrap();
    assert_eq!(GF256::to_bytes(recovered.as_slice()), vec![0x5a]);
}

#[test]
fn invalid_thresholds_are_rejected() {
    let data = secret_elements(&[1]);
    assert_eq!(encode(data.clone(), 256, 3), Err(Error::InvalidThreshold));
    assert_eq!(encode(data.clone(), 5, 6), Err(Error::InvalidThreshold));
    assert_eq!(encode(data, 5, 0), Err(Error::InvalidThreshold));
}

fn lagrange_at_zero(xs: &[GF256]) -> Vec<GF256> {
    let mut lams = Vec::new();
    for i in 0..xs.len() {
        let mut num = GF256(1);
        let mut den = GF256(1);
        for j in 0..xs.len() {
            if j != i {
                num = num.times(&xs[j]);
                den = den.times(&xs[j].minus(&xs[i]));
            }
        }
        lams.push(num.times(&den.inverse()));
    }
    lams
}

#[test]
fn below_threshold_any_secret_fits() {
    // With threshold 3, two honest shares plus one crafted point can be made
    // to "reconstruct" either of two different secrets: below the threshold
    // no unique reconstruction exists.
    let secret_a = 0x54u8;
    let secret_b = 0xc9u8;
    let shares = encode(vec![GF256(secret_a)], 3, 3).unwrap();

    // All three honest shares give back the first secret.
    let honest = vec![shares[0].clone(), shares[1].clone(), shares[2].clone()];
    assert_eq!(decode(honest).unwrap(), vec![GF256(secret_a)]);

    // Pick a fresh x-coordinate, then solve for the y that makes the two
    // kept shares and the forged point interpolate to the second secret.
    let mut forged_x = GF256(0);
    while forged_x == shares[0].x || forged_x == shares[1].x {
        forged_x = GF256(forged_x.0 + 1);
    }
    let xs = [shares[0].x, shares[1].x, forged_x];
    let lams = lagrange_at_zero(&xs);
    let partial = lams[0]
        .times(&shares[0].y[0])
        .plus(&lams[1].times(&shares[1].y[0]));
    let forged_y = GF256(secret_b).minus(&partial).times(&lams[2].inverse());
    let forged = Share {
        x: forged_x,
        y: vec![forged_y],
    };

    let mixed = vec![shares[0].clone(), shares[1].clone(), forged];
    assert_eq!(decode(mixed).unwrap(), vec![GF256(secret_b)]);
}
