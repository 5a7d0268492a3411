use vstd::prelude::*;

verus! {

/// Number of features a model is trained on.
pub const FEATURE_COUNT: usize = 9;

/// Inputs of a forecast, each a fixed-point number in hundredths of its unit.
#[derive(Clone, Copy, Debug)]
pub struct PredictionFeatures {
    pub temperature: i32,
    pub humidity: i32,
    pub pressure: i32,
    pub wind_speed: i32,
    pub wind_direction: i32,
    pub historical_avg_temp: i32,
    pub seasonal_factor: i32,
    pub location_latitude: i32,
    pub location_longitude: i32,
}

/// Why a model could not be trained or evaluated.
#[derive(Clone, Copy, Debug, PartialEq, Eq, Structural)]
pub enum PredictionError {
    /// Mismatched lengths, or no folds.
    InvalidArgument,
    /// Fewer samples than features, or more folds than samples.
    InsufficientData,
    /// A feature takes one value over all samples, so it cannot be standardized.
    DegenerateFeature,
}

/// Feature `j` of `f`, in the order of `feature_names`.
pub open spec fn feature(f: PredictionFeatures, j: int) -> int {
    if j == 0 {
        f.temperature as int
    } else if j == 1 {
        f.humidity as int
    } else if j == 2 {
        f.pressure as int
    } else if j == 3 {
        f.wind_speed as int
    } else if j == 4 {
        f.wind_direction as int
    } else if j == 5 {
        f.historical_avg_temp as int
    } else if j == 6 {
        f.seasonal_factor as int
    } else if j == 7 {
        f.location_latitude as int
    } else {
        f.location_longitude as int
    }
}

/// Feature `j` takes the same value in every sample.
pub open spec fn is_constant_feature(s: Seq<PredictionFeatures>, j: int) -> bool {
    forall|k: int| 0 <= k < s.len() ==> #[trigger] feature(s[k], j) == feature(s[0], j)
}

pub open spec fn has_degenerate_feature(s: Seq<PredictionFeatures>) -> bool {
    exists|j: int| 0 <= j < FEATURE_COUNT && #[trigger] is_constant_feature(s, j)
}

/// The verdict on a set to refit an existing model on, whose scaler is
/// kept: matching lengths, then at least as many samples as features.
pub open spec fn update_check(s: Seq<PredictionFeatures>, n_targets: int) -> Result<(), PredictionError> {
    if s.len() != n_targets {
        Err(PredictionError::InvalidArgument)
    } else if s.len() < FEATURE_COUNT {
        Err(PredictionError::InsufficientData)
    } else {
        Ok(())
    }
}

/// The verdict on a training set: the checks of `update_check`, then no
/// feature may be constant, since the scaler is fitted on this set.
pub open spec fn training_check(s: Seq<PredictionFeatures>, n_targets: int) -> Result<(), PredictionError> {
    if update_check(s, n_targets) is Err {
        update_check(s, n_targets)
    } else if has_degenerate_feature(s) {
        Err(PredictionError::DegenerateFeature)
    } else {
        Ok(())
    }
}

/// Checks a set to refit an existing model on with its scaler kept.
pub fn validate_update_data(features: &Vec<PredictionFeatures>, n_targets: usize) -> (r: Result<
    (),
    PredictionError,
>)
    ensures
        r == update_check(features@, n_targets as int),
{
    if features.len() != n_targets {
        Err(PredictionError::InvalidArgument)
    } else if features.len() < FEATURE_COUNT {
        Err(PredictionError::InsufficientData)
    } else {
        Ok(())
    }
}

/// Feature `j` of `f`.
pub fn feature_at(f: &PredictionFeatures, j: usize) -> (r: i32)
    requires
        j < FEATURE_COUNT,
    ensures
        r == feature(*f, j as int),
{
    if j == 0 {
        f.temperature
    } else if j == 1 {
        f.humidity
    } else if j == 2 {
        f.pressure
    } else if j == 3 {
        f.wind_speed
    } else if j == 4 {
        f.wind_direction
    } else if j == 5 {
        f.historical_avg_temp
    } else if j == 6 {
        f.seasonal_factor
    } else if j == 7 {
        f.location_latitude
    } else {
        f.location_longitude
    }
}

/// Names of the features, in the order of `feature_at`.
pub fn feature_names() -> (r: Vec<&'static str>)
    ensures
        r@.len() == FEATURE_COUNT,
        r@[0]@ == "temperature"@,
        r@[1]@ == "humidity"@,
        r@[2]@ == "pressure"@,
        r@[3]@ == "wind_speed"@,
        r@[4]@ == "wind_direction"@,
        r@[5]@ == "historical_avg_temp"@,
        r@[6]@ == "seasonal_factor"@,
        r@[7]@ == "location_latitude"@,
        r@[8]@ == "location_longitude"@,
{
    vec![
        "temperature",
        "humidity",
        "pressure",
        "wind_speed",
        "wind_direction",
        "historical_avg_temp",
        "seasonal_factor",
        "location_latitude",
        "location_longitude",
    ]
}

/// Whether feature `j` is the same in every sample of a non-empty set.
pub fn constant_feature(features: &Vec<PredictionFeatures>, j: usize) -> (r: bool)
    requires
        features.len() >= 1,
        j < FEATURE_COUNT,
    ensures
        r == is_constant_feature(features@, j as int),
{
    let first = feature_at(&features[0], j);
    let mut k: usize = 1;
    while k < features.len()
        invariant
            1 <= k <= features.len(),
            j < FEATURE_COUNT,
            first == feature(features@[0], j as int),
            forall|m: int| 0 <= m < k ==> #[trigger] feature(features@[m], j as int) == first,
        decreases features.len() - k,
    {
        if feature_at(&features[k], j) != first {
            return false;
        }
        k = k + 1;
    }
    true
}

/// Checks that `features` and `n_targets` describe a set a model can be
/// trained on.
pub fn validate_training_data(features: &Vec<PredictionFeatures>, n_targets: usize) -> (r: Result<
    (),
    PredictionError,
>)
    ensures
        r == training_check(features@, n_targets as int),
{
    let shape = validate_update_data(features, n_targets);
    if shape.is_err() {
        return shape;
    }
    let mut j: usize = 0;
    while j < FEATURE_COUNT
        invariant
            features.len() >= FEATURE_COUNT,
            features.len() == n_targets,
            0 <= j <= FEATURE_COUNT,
            forall|m: int| 0 <= m < j ==> !#[trigger] is_constant_feature(features@, m),
        decreases FEATURE_COUNT - j,
    {
        if constant_feature(features, j) {
            proof {
                assert(is_constant_feature(features@, j as int));
                assert(has_degenerate_feature(features@));
            }
            return Err(PredictionError::DegenerateFeature);
        }
        j = j + 1;
    }
    Ok(())
}

/// Start of fold `i` when `n` samples are cut into `folds` blocks.
pub open spec fn fold_start(n: int, folds: int, i: int) -> int {
    i * (n / folds)
}

/// End (exclusive) of fold `i`: the last fold runs to the end of the data.
pub open spec fn fold_end(n: int, folds: int, i: int) -> int {
    if i == folds - 1 {
        n
    } else {
        (i + 1) * (n / folds)
    }
}

/// The held-out ranges of a `folds`-fold cross-validation over `n` samples
/// with `n_targets` targets.
pub fn cross_validation_folds(n: usize, n_targets: usize, folds: usize) -> (r: Result<
    Vec<(usize, usize)>,
    PredictionError,
>)
    ensures
        n != n_targets || folds == 0 ==> r == Err::<Vec<(usize, usize)>, PredictionError>(
            PredictionError::InvalidArgument,
        ),
        n == n_targets && folds > 0 && folds > n ==> r == Err::<Vec<(usize, usize)>, PredictionError>(
            PredictionError::InsufficientData,
        ),
        n == n_targets && 0 < folds <= n ==> r is Ok,
        r matches Ok(v) ==> {
            &&& v@.len() == folds
            &&& forall|i: int| 0 <= i < folds ==> (#[trigger] v@[i]).0 == fold_start(n as int, folds as int, i)
                && v@[i].1 == fold_end(n as int, folds as int, i)
        },
{
    if n != n_targets || folds == 0 {
        return Err(PredictionError::InvalidArgument);
    }
    if folds > n {
        return Err(PredictionError::InsufficientData);
    }
    let size = n / folds;
    let mut out: Vec<(usize, usize)> = Vec::new();
    let mut i: usize = 0;
    while i < folds
        invariant
            0 < folds <= n,
            size == n / folds,
            0 <= i <= folds,
            out@.len() == i,
            forall|m: int| 0 <= m < i ==> (#[trigger] out@[m]).0 == fold_start(n as int, folds as int, m)
                && out@[m].1 == fold_end(n as int, folds as int, m),
        decreases folds - i,
    {
        proof {
            assert((i + 1) * size <= n) by (nonlinear_arith)
                requires
                    i + 1 <= folds,
                    size == n / folds,
                    folds > 0,
                    n >= 0,
            ;
            assert(i * size <= (i + 1) * size) by (nonlinear_arith)
                requires
                    size >= 0,
            ;
        }
        let start = i * size;
        let end = if i == folds - 1 {
            n
        } else {
            (i + 1) * size
        };
        out.push((start, end));
        i = i + 1;
    }
    Ok(out)
}

/// Fold ranges cover the samples in order: each starts where the previous
/// ended, the first at zero, the last at `n`, and none is empty.
pub proof fn lemma_folds_partition(n: int, folds: int)
    requires
        0 < folds <= n,
    ensures
        fold_start(n, folds, 0) == 0,
        fold_end(n, folds, folds - 1) == n,
        forall|i: int| 0 < i < folds ==> #[trigger] fold_start(n, folds, i) == fold_end(n, folds, i - 1),
        forall|i: int| 0 <= i < folds ==> #[trigger] fold_start(n, folds, i) < fold_end(n, folds, i),
{
    let size = n / folds;
    assert(size >= 1) by (nonlinear_arith)
        requires
            0 < folds <= n,
            size == n / folds,
    ;
    assert(fold_start(n, folds, 0) == 0);
    assert forall|i: int| 0 <= i < folds implies #[trigger] fold_start(n, folds, i) < fold_end(n, folds, i) by {
        assert(i * size < (i + 1) * size) by (nonlinear_arith)
            requires
                size >= 1,
        ;
        assert(folds * size <= n) by (nonlinear_arith)
            requires
                size == n / folds,
                folds > 0,
                n >= 0,
        ;
        assert(i * size <= (folds - 1) * size) by (nonlinear_arith)
            requires
                i <= folds - 1,
                size >= 1,
        ;
    }
}

/// Splits samples into the training part (everything outside `[start, end)`,
/// in order) and the held-out part (inside it).
pub fn split_fold(
    features: &Vec<PredictionFeatures>,
    targets: &Vec<i64>,
    start: usize,
    end: usize,
) -> (r: (Vec<PredictionFeatures>, Vec<i64>, Vec<PredictionFeatures>, Vec<i64>))
    requires
        features.len() == targets.len(),
        start <= end <= features.len(),
    ensures
        r.0@ == features@.subrange(0, start as int) + features@.subrange(end as int, features.len() as int),
        r.1@ == targets@.subrange(0, start as int) + targets@.subrange(end as int, targets.len() as int),
        r.2@ == features@.subrange(start as int, end as int),
        r.3@ == targets@.subrange(start as int, end as int),
{
    let n = features.len();
    let mut train_f: Vec<PredictionFeatures> = Vec::new();
    let mut train_t: Vec<i64> = Vec::new();
    let mut test_f: Vec<PredictionFeatures> = Vec::new();
    let mut test_t: Vec<i64> = Vec::new();
    let mut i: usize = 0;
    while i < n
        invariant
            n == features.len(),
            n == targets.len(),
            start <= end <= n,
            0 <= i <= n,
            train_f@ == features@.subrange(0, if i < start { i as int } else { start as int }) + features@.subrange(
                end as int,
                if i < end { end as int } else { i as int },
            ),
            train_t@ == targets@.subrange(0, if i < start { i as int } else { start as int }) + targets@.subrange(
                end as int,
                if i < end { end as int } else { i as int },
            ),
            test_f@ == features@.subrange(
                start as int,
                if i < start { start as int } else if i < end { i as int } else { end as int },
            ),
            test_t@ == targets@.subrange(
                start as int,
                if i < start { start as int } else if i < end { i as int } else { end as int },
            ),
        decreases n - i,
    {
        if i < start || i >= end {
            train_f.push(features[i]);
            train_t.push(targets[i]);
        } else {
            test_f.push(features[i]);
            test_t.push(targets[i]);
        }
        proof {
            let j = i + 1;
            assert(train_f@ =~= features@.subrange(0, if j < start { j as int } else { start as int })
                + features@.subrange(end as int, if j < end { end as int } else { j as int }));
            assert(train_t@ =~= targets@.subrange(0, if j < start { j as int } else { start as int })
                + targets@.subrange(end as int, if j < end { end as int } else { j as int }));
            assert(test_f@ =~= features@.subrange(
                start as int,
                if j < start { start as int } else if j < end { j as int } else { end as int },
            ));
            assert(test_t@ =~= targets@.subrange(
                start as int,
                if j < start { start as int } else if j < end { j as int } else { end as int },
            ));
        }
        i = i + 1;
    }
    (train_f, train_t, test_f, test_t)
}

/// z-score of a confidence level given in thousandths, in thousandths:
/// 2576 for 99%, 1960 for 95% and for every other level.
pub fn z_score_milli(confidence_milli: u32) -> (r: u32)
    ensures
        r == if confidence_milli == 990 { 2576u32 } else { 1960u32 },
{
    if confidence_milli == 990 {
        2576
    } else {
        1960
    }
}

} // verus!
