use anspass::required_symbols::Adjustmotron;

#[test]
pub fn test1() {
    let atron = Adjustmotron::new(3, 4);
    {
        let (a, b) = atron.unrestricted_weight(1).unwrap();
        assert_eq!(3, a);
        assert_eq!(4, b);
    }
}

#[test]
pub fn test2() {
    let atron = Adjustmotron::new(3, 4);

    {
        let (a, b) = atron.weights_general(1, 1).unwrap();
        assert_eq!(3, a);
        assert_eq!(0, b);
    }
}

#[test]
pub fn test3() {
    {
        let (a, b) = Adjustmotron::new(1, 1).weights_general(1, 2).unwrap();
        assert_eq!(2, a);
        assert_eq!(1, b);
    }

    {
        let (a, b) = Adjustmotron::new(2, 2).weights_general(1, 2).unwrap();
        assert_eq!(2 * 4, a);
        assert_eq!(2 * 2, b);
    }

    {
        let (a, b) = Adjustmotron::new(3, 4).weights_general(1, 2).unwrap();
        assert_eq!(3 * (4 + 3), a);
        assert_eq!(4 * 3, b);
    }
}

#[test]
pub fn test4() {
    {
        let (a, b) = Adjustmotron::new(1, 1).weights_general(1, 8).unwrap();
        assert_eq!(128, a);
        assert_eq!(127, b);
    }
}

#[test]
pub fn test5() {
    let a11 = Adjustmotron::new(1, 1);
    {
        let (a, b) = a11.weights_general(2, 2).unwrap();
        assert_eq!(1, a);
        assert_eq!(0, b);
    }
    {
        let (a, b) = a11.weights_general(2, 3).unwrap();
        assert_eq!(3, a);
        assert_eq!(1, b);
    }
    {
        let (a, b) = a11.weights_general(2, 4).unwrap();
        assert_eq!(7, a);
        assert_eq!(4, b);
    }
    {
        let (a, b) = a11.weights_general(2, 5).unwrap();
        assert_eq!(15, a);
        assert_eq!(11, b);
    }
    {
        let (a, b) = a11.weights_general(2, 6).unwrap();
        assert_eq!(31, a);
        assert_eq!(26, b);
    }
    {
        let (a, b) = a11.weights_general(2, 7).unwrap();
        assert_eq!(63, a);
        assert_eq!(64 - 7, b);
    }

    {
        let (a, b) = a11.weights_general(2, 8).unwrap();
        assert_eq!(127, a);
        assert_eq!(120, b);
    }
}

#[test]
fn unrestricted_weight_scales_by_sum_power() {
    // five slots left: both weights carry the factor (3+4)^4 = 2401
    let (a, b) = Adjustmotron::new(3, 4).unrestricted_weight(5).unwrap();
    assert_eq!(3 * 2401, a);
    assert_eq!(4 * 2401, b);
}

#[test]
fn weights_overflow_reports_none() {
    // (2^32)^3 alone is far beyond 64 bits
    let atron = Adjustmotron::new(1 << 32, 1 << 32);
    assert_eq!(None, atron.weights_general(0, 4));
}

#[test]
fn forced_branch_has_zero_optional_weight() {
    // no slack: every remaining slot must take the required branch
    let (a, b) = Adjustmotron::new(7, 9).weights_general(3, 3).unwrap();
    assert_eq!(7 * 7 * 7, a);
    assert_eq!(0, b);
}
