use ferric_alpha::quantiles::quantile_bucket;

#[test]
fn buckets_split_ranks_proportionally() {
    let buckets: Vec<u32> = (0..10).map(|rank| quantile_bucket(rank, 10, 5, 1)).collect();
    assert_eq!(buckets, vec![1, 1, 2, 2, 3, 3, 4, 4, 5, 5]);
    let uneven: Vec<u32> = (0..7).map(|rank| quantile_bucket(rank, 7, 3, 0)).collect();
    assert_eq!(uneven, vec![0, 0, 0, 1, 1, 2, 2]);
}

#[test]
fn few_values_spread_over_all_buckets() {
    let buckets: Vec<u32> = (0..3).map(|rank| quantile_bucket(rank, 3, 5, 1)).collect();
    assert_eq!(buckets, vec![1, 3, 5]);
    let rounded: Vec<u32> = (0..4).map(|rank| quantile_bucket(rank, 4, 6, 0)).collect();
    let expected: Vec<u32> = (0..4)
        .map(|rank| (rank as f64 * 5.0 / 3.0).round() as u32)
        .collect();
    assert_eq!(rounded, expected);
}

use ferric_alpha::quantiles::{QuantizeMode, QuantizeOptions};
use ferric_alpha::FerricAlphaError;

fn bits(values: &[f64]) -> Vec<u64> {
    values.iter().map(|v| v.to_bits()).collect()
}

fn quantile_error(reason: &'static str) -> Result<QuantizeMode, FerricAlphaError> {
    Err(FerricAlphaError::InvalidQuantiles { reason })
}

#[test]
fn quantile_counts_are_checked() {
    assert_eq!(QuantizeOptions::quantiles(5).mode(), Ok(QuantizeMode::Quantiles(5)));
    assert_eq!(QuantizeOptions::quantiles(1).mode(), quantile_error("quantiles must be at least 2"));
    assert_eq!(
        QuantizeOptions::quantiles(5).with_zero_aware(true).mode(),
        quantile_error("zero-aware quantiles must be even")
    );
    let grouped = QuantizeOptions::quantiles(4).with_zero_aware(true).with_by_group(true);
    assert_eq!(grouped.mode(), Ok(QuantizeMode::Quantiles(4)));
    assert!(grouped.by_group() && grouped.zero_aware());
}

#[test]
fn quantile_edges_are_checked() {
    let edges = QuantizeOptions::quantile_edges(bits(&[0.0, 0.25, 1.0]));
    assert_eq!(edges.mode(), Ok(QuantizeMode::QuantileEdges));
    assert_eq!(edges.edges(), Some(bits(&[0.0, 0.25, 1.0]).as_slice()));
    assert_eq!(edges.boundaries(), None);
    assert_eq!(
        QuantizeOptions::quantile_edges(bits(&[-0.0, 1.0])).mode(),
        Ok(QuantizeMode::QuantileEdges)
    );
    assert_eq!(
        QuantizeOptions::quantile_edges(bits(&[0.5])).mode(),
        quantile_error("quantile edges must contain at least two boundaries")
    );
    for bad in [-0.1, 1.5, f64::NAN, f64::INFINITY] {
        assert_eq!(
            QuantizeOptions::quantile_edges(bits(&[0.0, bad])).mode(),
            quantile_error("quantile edges must be finite values in [0, 1]")
        );
    }
    assert_eq!(
        QuantizeOptions::quantile_edges(bits(&[0.0, 0.5, 0.5])).mode(),
        quantile_error("quantile edges must be strictly increasing")
    );
    assert_eq!(
        QuantizeOptions::quantile_edges(bits(&[0.0, -0.0])).mode(),
        quantile_error("quantile edges must be strictly increasing")
    );
}

#[test]
fn bins_are_checked() {
    assert_eq!(QuantizeOptions::bin_count(3).mode(), Ok(QuantizeMode::BinCount(3)));
    assert_eq!(QuantizeOptions::bin_count(0).mode(), quantile_error("bins must be at least 1"));
    assert_eq!(
        QuantizeOptions::bin_count(3).with_zero_aware(true).mode(),
        quantile_error("zero-aware bins must be even")
    );
    let boundaries = QuantizeOptions::bins(bits(&[-2.0, -1.0, 0.0, 3.5]));
    assert_eq!(boundaries.mode(), Ok(QuantizeMode::Bins));
    assert_eq!(boundaries.boundaries(), Some(bits(&[-2.0, -1.0, 0.0, 3.5]).as_slice()));
    assert_eq!(
        QuantizeOptions::bins(bits(&[1.0])).mode(),
        quantile_error("bins must contain at least two boundaries")
    );
    assert_eq!(
        QuantizeOptions::bins(bits(&[0.0, 1.0])).with_zero_aware(true).mode(),
        quantile_error("zero-aware explicit bins are not supported in this phase")
    );
    for pair in [[1.0, 1.0], [2.0, -3.0], [f64::NEG_INFINITY, 0.0], [0.0, f64::NAN]] {
        assert_eq!(
            QuantizeOptions::bins(bits(&pair)).mode(),
            quantile_error("bin boundaries must be finite and strictly increasing")
        );
    }
}
