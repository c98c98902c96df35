use standby::time::magnitude::{digits_at_least, overflow_units, read_atto_digits, skip_zeros};

fn chars(s: &str) -> Vec<char> {
    s.chars().collect()
}

#[test]
fn digits_compare_as_numbers() {
    assert!(digits_at_least(&chars("100"), &chars("99")));
    assert!(!digits_at_least(&chars("99"), &chars("100")));
    assert!(digits_at_least(&chars("00123"), &chars("123")));
    assert!(digits_at_least(&chars("123"), &chars("000123")));
    assert!(!digits_at_least(&chars("122"), &chars("123")));
    assert!(digits_at_least(&chars("124"), &chars("0123")));
    assert!(digits_at_least(&chars(""), &chars("000")));
    assert!(!digits_at_least(&chars("0"), &chars("1")));
}

#[test]
fn units_that_reach_the_range_of_f64() {
    let limit = "179769313486231580793728971405303415079934132710037826936173778980444968292764750946649017977587207096330286416692887910946555547851940402630657488671505820681908902000708383676273854845817711531764475730270069855571366959622842914819860834936475292719074168444365510704342711559699508093042880177904174497792";
    let digits = |m: u128| -> String {
        let v = overflow_units(m);
        let s: String = v.into_iter().collect();
        s.trim_start_matches('0').to_string()
    };
    assert_eq!(digits(1), limit);
    assert_eq!(digits(60), "2996155224770526346562149523421723584665568878500630448936229649674082804879412515777483632959786784938838106944881465182442592464199006710510958144525097011365148366678473061271230914096961858862741262171167830926189449327047381913664347248941254878651236140739425178405711859328325134884048002965069574964");
    assert_eq!(digits(3600), "49935920412842105776035825390362059744426147975010507482270494161234713414656875262958060549329779748980635115748024419707376541069983445175182635742084950189419139444641217687853848568282697647712354369519463848769824155450789698561072454149020914644187269012323752973428530988805418914734133382751159583");
    assert_eq!(digits(86400), "2080663350535087740668159391265085822684422832292104478427937256718113058944036469289919189555407489540859796489501017487807355877915976882299276489253539591225797476860050736993910357011779068654681432063310993698742673143782904106711352256209204776841136208846823040559522124533559121447255557614631650");
}

#[test]
fn leading_zeros_are_skipped() {
    assert_eq!(skip_zeros(&chars("000120")), 3);
    assert_eq!(skip_zeros(&chars("000")), 3);
    assert_eq!(skip_zeros(&chars("7")), 0);
}

#[test]
fn attoseconds_in_digits() {
    // 2.5 seconds
    let (v, huge, whole) = read_atto_digits(&chars("2500000000000000000"), 1 << 125);
    assert_eq!((v, huge), (2_500_000_000_000_000_000, false));
    assert_eq!(whole, chars("2"));
    // below one second there is no whole part
    let (v, huge, whole) = read_atto_digits(&chars("999"), 1 << 125);
    assert_eq!((v, huge), (999, false));
    assert!(whole.is_empty());
    // from the cap on only the whole part is exact
    let (_, huge, whole) = read_atto_digits(&chars("12345000000000000000000"), 1000);
    assert!(huge);
    assert_eq!(whole, chars("12345"));
}
