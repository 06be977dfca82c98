use pearson::ingest::{has_valid_data, ingest, Observation, Parsed, Sample};
use pearson::num::Decimal;
use pearson::stats::{pearson_coefficient, swap_xy, Coefficient, Rat, Statistics};

fn dec(mant: i128, scale: usize) -> Decimal {
    Decimal { mant, scale }
}

fn obs(x: Decimal, y: Decimal) -> Observation {
    Observation { x, y }
}

fn sample_of(pairs: &[(i128, i128)]) -> Sample {
    let mut v: Vec<Observation> = Vec::new();
    for &(x, y) in pairs {
        v.push(obs(dec(x, 0), dec(y, 0)));
    }
    Sample { obs: v }
}

fn lines(ls: &[&str]) -> Vec<String> {
    let mut v: Vec<String> = Vec::new();
    for l in ls {
        v.push((*l).to_string());
    }
    v
}

fn rat_f64(r: &Rat) -> f64 {
    r.num as f64 / r.den as f64
}

fn coeff_f64(c: &Coefficient) -> f64 {
    match c {
        Coefficient::Undefined => f64::NAN,
        Coefficient::Defined { numerator, sum_sq_x, sum_sq_y } => {
            *numerator as f64 / ((*sum_sq_x as f64).sqrt() * (*sum_sq_y as f64).sqrt())
        }
    }
}

fn rat_eq_int(r: &Rat, v: i128) -> bool {
    r.num == v * r.den
}

#[test]
fn header_and_bad_line_tolerated() {
    let ls = lines(&["x,y", "1,2", "bad,data", "3,4"]);
    let (sample, diags) = ingest(&ls);
    assert_eq!(sample.obs.len(), 2);
    assert_eq!(sample.obs[0].x, dec(1, 0));
    assert_eq!(sample.obs[0].y, dec(2, 0));
    assert_eq!(sample.obs[1].x, dec(3, 0));
    assert_eq!(sample.obs[1].y, dec(4, 0));
    assert_eq!(diags, vec![3]);
}

#[test]
fn header_line_is_silent_even_when_malformed() {
    let ls = lines(&["bad,data", "1,2"]);
    let (sample, diags) = ingest(&ls);
    assert_eq!(sample.obs.len(), 1);
    assert_eq!(diags.len(), 0);
}

#[test]
fn wrong_field_count_is_silent() {
    let ls = lines(&["1,2,3", "1", "", "5,6"]);
    let (sample, diags) = ingest(&ls);
    assert_eq!(sample.obs.len(), 1);
    assert_eq!(sample.obs[0].x, dec(5, 0));
    assert_eq!(diags.len(), 0);
}

#[test]
fn has_valid_data_accepts_two_decimal_fields() {
    assert!(has_valid_data("1,2"));
    assert!(has_valid_data(" 1.5 , -2.25 "));
    assert!(has_valid_data("+0.5,.5"));
    assert!(has_valid_data("5.,-.5"));
    assert!(has_valid_data("007,0"));
}

#[test]
fn has_valid_data_rejects_everything_else() {
    assert!(!has_valid_data("x,y"));
    assert!(!has_valid_data("1"));
    assert!(!has_valid_data("1,2,3"));
    assert!(!has_valid_data(""));
    assert!(!has_valid_data(","));
    assert!(!has_valid_data("1,"));
    assert!(!has_valid_data(",2"));
    assert!(!has_valid_data("1.2.3,4"));
    assert!(!has_valid_data("1 2,3"));
    assert!(!has_valid_data("+,2"));
    assert!(!has_valid_data(".,2"));
    assert!(!has_valid_data("inf,2"));
    assert!(!has_valid_data("NaN,2"));
    assert!(!has_valid_data("0x10,2"));
}

#[test]
fn mantissa_limit_is_the_validity_border() {
    assert!(has_valid_data("999999999999999999,1"));
    assert!(!has_valid_data("1000000000000000000,1"));
    assert!(has_valid_data("-999999999999999999,1"));
    assert!(has_valid_data("9.99999999999999999,1"));
    assert!(!has_valid_data("9.999999999999999999,1"));
}

#[test]
fn exponent_notation_is_accepted() {
    assert!(has_valid_data("1e5,2"));
    assert!(has_valid_data(" 1.5 , -2e3 "));
    assert!(has_valid_data("1.5E2,2"));
    assert!(has_valid_data("2.5e-1,1"));
    assert!(has_valid_data("1e+3,2"));
    assert!(has_valid_data("9e17,1"));
    assert!(has_valid_data("0e999999999999999999999999,1"));
    assert!(!has_valid_data("1e18,1"));
    assert!(!has_valid_data("1e,2"));
    assert!(!has_valid_data("1e+,2"));
    assert!(!has_valid_data("e5,2"));
    assert!(!has_valid_data(".e5,2"));
    assert!(!has_valid_data("1e5.2,2"));
    assert!(!has_valid_data("1e-99999999999999999999999,1"));
}

#[test]
fn exponent_values_are_folded_exactly() {
    match pearson::ingest::parse_line(" 1.5e2 , -2e3 ") {
        Parsed::Valid(x, y) => {
            assert_eq!(x, dec(150, 0));
            assert_eq!(y, dec(-2000, 0));
        }
        _ => panic!("line should be valid"),
    }
    match pearson::ingest::parse_line("2.5e-1,.5e1") {
        Parsed::Valid(x, y) => {
            assert_eq!(x, dec(25, 2));
            assert_eq!(y, dec(5, 0));
        }
        _ => panic!("line should be valid"),
    }
    match pearson::ingest::parse_line("0e99999999999999999999999,7") {
        Parsed::Valid(x, y) => {
            assert_eq!(x, dec(0, 0));
            assert_eq!(y, dec(7, 0));
        }
        _ => panic!("line should be valid"),
    }
}

#[test]
fn parse_line_reads_exact_decimals() {
    match pearson::ingest::parse_line(" 1.5 , -2.25 ") {
        Parsed::Valid(x, y) => {
            assert_eq!(x, dec(15, 1));
            assert_eq!(y, dec(-225, 2));
        }
        _ => panic!("line should be valid"),
    }
    match pearson::ingest::parse_line("bad,2") {
        Parsed::Malformed => {}
        _ => panic!("line should be malformed"),
    }
    match pearson::ingest::parse_line("1;2") {
        Parsed::Ignored => {}
        _ => panic!("line should be ignored"),
    }
}

fn stats_of(sample: &Sample) -> Statistics {
    match pearson_coefficient(sample) {
        Some(st) => st,
        None => panic!("statistics should fit"),
    }
}

#[test]
fn perfect_positive_relation() {
    let sample = sample_of(&[(1, 2), (2, 4), (3, 6)]);
    let st = stats_of(&sample);
    assert!(rat_eq_int(st.mean_x.as_ref().unwrap(), 2));
    assert!(rat_eq_int(st.mean_y.as_ref().unwrap(), 4));
    let dx: Vec<i128> = vec![-1, 0, 1];
    let dy: Vec<i128> = vec![-2, 0, 2];
    for i in 0..3 {
        assert!(rat_eq_int(&st.deviation_x[i], dx[i]));
        assert!(rat_eq_int(&st.deviation_y[i], dy[i]));
        assert!(rat_eq_int(&st.deviation_squared_x[i], dx[i] * dx[i]));
        assert!(rat_eq_int(&st.deviation_squared_y[i], dy[i] * dy[i]));
        assert!(rat_eq_int(&st.product_deviation_scores[i], dx[i] * dy[i]));
    }
    for i in 0..3 {
        assert!(rat_eq_int(&st.x_values[i], (i as i128) + 1));
        assert!(rat_eq_int(&st.y_values[i], 2 * ((i as i128) + 1)));
    }
    match st.pearson_coefficient {
        Coefficient::Defined { numerator, sum_sq_x, sum_sq_y } => {
            assert!(numerator > 0);
            assert_eq!(numerator * numerator, sum_sq_x * sum_sq_y);
        }
        Coefficient::Undefined => panic!("coefficient should be defined"),
    }
    assert!((coeff_f64(&st.pearson_coefficient) - 1.0).abs() < 1e-9);
}

#[test]
fn perfect_negative_relation() {
    let sample = sample_of(&[(1, 5), (2, 3), (3, 1)]);
    let st = stats_of(&sample);
    match st.pearson_coefficient {
        Coefficient::Defined { numerator, sum_sq_x, sum_sq_y } => {
            assert!(numerator < 0);
            assert_eq!(numerator * numerator, sum_sq_x * sum_sq_y);
        }
        Coefficient::Undefined => panic!("coefficient should be defined"),
    }
    assert!((coeff_f64(&st.pearson_coefficient) + 1.0).abs() < 1e-9);
}

#[test]
fn linear_relation_with_intercept() {
    // y = 2x + 1 gives 1; y = -3x + 5 gives -1.
    let up = stats_of(&sample_of(&[(0, 1), (1, 3), (2, 5), (3, 7)]));
    match up.pearson_coefficient {
        Coefficient::Defined { numerator, sum_sq_x, sum_sq_y } => {
            assert!(numerator > 0);
            assert_eq!(numerator * numerator, sum_sq_x * sum_sq_y);
        }
        Coefficient::Undefined => panic!("coefficient should be defined"),
    }
    let down = stats_of(&sample_of(&[(0, 5), (1, 2), (2, -1)]));
    match down.pearson_coefficient {
        Coefficient::Defined { numerator, sum_sq_x, sum_sq_y } => {
            assert!(numerator < 0);
            assert_eq!(numerator * numerator, sum_sq_x * sum_sq_y);
        }
        Coefficient::Undefined => panic!("coefficient should be defined"),
    }
}

#[test]
fn coefficient_bounded() {
    let st = stats_of(&sample_of(&[(1, 7), (2, 3), (3, 9), (4, 1), (5, 5)]));
    match st.pearson_coefficient {
        Coefficient::Defined { numerator, sum_sq_x, sum_sq_y } => {
            assert!(numerator * numerator <= sum_sq_x * sum_sq_y);
        }
        Coefficient::Undefined => panic!("coefficient should be defined"),
    }
    let r = coeff_f64(&st.pearson_coefficient);
    assert!(-1.0 - 1e-9 <= r && r <= 1.0 + 1e-9);
}

#[test]
fn swap_symmetry() {
    let sample = sample_of(&[(1, 7), (2, 3), (3, 9), (4, 1), (5, 5)]);
    let st = stats_of(&sample);
    let ts = stats_of(&swap_xy(&sample));
    match (st.pearson_coefficient, ts.pearson_coefficient) {
        (
            Coefficient::Defined { numerator: n1, sum_sq_x: a1, sum_sq_y: b1 },
            Coefficient::Defined { numerator: n2, sum_sq_x: a2, sum_sq_y: b2 },
        ) => {
            assert_eq!(n1, n2);
            assert_eq!(a1, b2);
            assert_eq!(b1, a2);
        }
        _ => panic!("both coefficients should be defined"),
    }
    let r1 = coeff_f64(&st.pearson_coefficient);
    let r2 = coeff_f64(&ts.pearson_coefficient);
    assert!((r1 - r2).abs() < 1e-12);
}

#[test]
fn single_observation_is_undefined() {
    let st = stats_of(&sample_of(&[(4, 9)]));
    assert_eq!(st.pearson_coefficient, Coefficient::Undefined);
    assert!(coeff_f64(&st.pearson_coefficient).is_nan());
    assert!(rat_eq_int(st.mean_x.as_ref().unwrap(), 4));
    assert!(rat_eq_int(st.mean_y.as_ref().unwrap(), 9));
    assert!(rat_eq_int(&st.deviation_x[0], 0));
}

#[test]
fn constant_axis_is_undefined() {
    let st = stats_of(&sample_of(&[(2, 1), (2, 5), (2, 9)]));
    assert_eq!(st.pearson_coefficient, Coefficient::Undefined);
    let ty = stats_of(&sample_of(&[(1, 3), (2, 3), (9, 3)]));
    assert_eq!(ty.pearson_coefficient, Coefficient::Undefined);
}

#[test]
fn empty_sample_has_no_mean_and_no_coefficient() {
    let st = stats_of(&Sample { obs: Vec::new() });
    assert!(st.mean_x.is_none());
    assert!(st.mean_y.is_none());
    assert_eq!(st.x_values.len(), 0);
    assert_eq!(st.pearson_coefficient, Coefficient::Undefined);
}

#[test]
fn mixed_scales_are_aligned_exactly() {
    // (0.5, 1.25) and (1.5, 3.75): y = 2.5 * x exactly.
    let sample = Sample {
        obs: vec![obs(dec(5, 1), dec(125, 2)), obs(dec(15, 1), dec(375, 2))],
    };
    let st = stats_of(&sample);
    assert!(rat_eq_int(st.mean_x.as_ref().unwrap(), 1));
    match st.pearson_coefficient {
        Coefficient::Defined { numerator, sum_sq_x, sum_sq_y } => {
            assert!(numerator > 0);
            assert_eq!(numerator * numerator, sum_sq_x * sum_sq_y);
        }
        Coefficient::Undefined => panic!("coefficient should be defined"),
    }
}

#[test]
fn overflow_is_reported_not_wrong() {
    // The scales differ by 39, so aligning needs 10^39 > i128::MAX.
    let sample = Sample {
        obs: vec![obs(dec(1, 0), dec(1, 0)), obs(dec(1, 39), dec(2, 0))],
    };
    assert!(pearson_coefficient(&sample).is_none());
}

#[test]
fn ingest_then_statistics_end_to_end() {
    let ls = lines(&["x,y", "1,2", "2,4", "3e0,0.6e1"]);
    let (sample, diags) = ingest(&ls);
    assert_eq!(diags.len(), 0);
    assert_eq!(sample.obs.len(), 3);
    assert_eq!(sample.obs[2].x, dec(3, 0));
    assert_eq!(sample.obs[2].y, dec(6, 0));
    let st = stats_of(&sample);
    assert!((coeff_f64(&st.pearson_coefficient) - 1.0).abs() < 1e-9);
    assert!((rat_f64(st.mean_x.as_ref().unwrap()) - 2.0).abs() < 1e-12);
    assert!((rat_f64(st.mean_y.as_ref().unwrap()) - 4.0).abs() < 1e-12);
}
