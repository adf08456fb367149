//! Kernel validation: each construction failure is a distinct, inspectable
//! error, raised exactly on the inputs the contract names.

use rgbconv::conv::ConvProcessor;
use rgbconv::kernel::{ConvKernel, KernelError};

#[test]
fn wrong_weight_count_is_shape_error() {
    let r = ConvKernel::new(vec![1; 8], 3, false);
    assert_eq!(r.unwrap_err(), KernelError::InvalidKernelShape);
}

#[test]
fn even_side_is_size_error() {
    let r = ConvKernel::new(vec![1; 16], 4, false);
    assert_eq!(r.unwrap_err(), KernelError::InvalidKernelSize);
}

#[test]
fn side_below_three_is_size_error() {
    let r = ConvKernel::new(vec![1; 1], 1, false);
    assert_eq!(r.unwrap_err(), KernelError::InvalidKernelSize);
}

#[test]
fn zero_weight_sum_with_averaging_is_normalizer_error() {
    let r = ConvKernel::new(vec![0; 9], 3, true);
    assert_eq!(r.unwrap_err(), KernelError::ZeroNormalizer);
}

#[test]
fn zero_weight_sum_without_averaging_is_accepted() {
    let r = ConvKernel::new(vec![-1, 0, 1, -2, 0, 2, -1, 0, 1], 3, false);
    assert!(r.is_ok());
}

#[test]
fn shape_error_takes_precedence_over_size_error() {
    let r = ConvKernel::new(vec![1; 9], 4, false);
    assert_eq!(r.unwrap_err(), KernelError::InvalidKernelShape);
}

#[test]
fn valid_kernel_reads_back_its_weights() {
    let kern = ConvKernel::new(vec![10, 20, 30, 40, 50, 60, 70, 80, 90], 3, false).unwrap();
    assert_eq!(kern.at(0, 0), 10);
    assert_eq!(kern.at(0, 2), 30);
    assert_eq!(kern.at(1, 1), 50);
    assert_eq!(kern.at(2, 0), 70);
    assert_eq!(kern.at(2, 2), 90);
}

#[test]
fn processor_construction_reports_the_same_errors() {
    assert_eq!(
        ConvProcessor::new(vec![1; 8], 3, false).unwrap_err(),
        KernelError::InvalidKernelShape
    );
    assert_eq!(
        ConvProcessor::new(vec![1; 16], 4, false).unwrap_err(),
        KernelError::InvalidKernelSize
    );
    assert_eq!(
        ConvProcessor::new(vec![0; 9], 3, true).unwrap_err(),
        KernelError::ZeroNormalizer
    );
    assert!(ConvProcessor::new(vec![1; 9], 3, true).is_ok());
}
