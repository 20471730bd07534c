use alan_core::abi::{
    active_outcome, buffer_outcome, init_outcome, init_snapshot_outcome, integrate_outcome,
    state_len, AlanError,
};
use alan_core::controller::{
    check_step_count, comparable, momentum_offset, ParameterFault, StepCounter, TrsError,
};
use alan_core::oscillator::{
    check_coupling_shape, check_step_shape, ShapeError, VerletIntegrator,
};
use alan_core::trajectory::{initialize, Platform, MAX_OSCILLATOR_COUNT};
use alan_core::{init, version, version_tuple, VERSION_MAJOR, VERSION_MINOR, VERSION_PATCH};

#[test]
fn lib_test_version() {
    assert_eq!(
        version(),
        format!("{}.{}.{}", VERSION_MAJOR, VERSION_MINOR, VERSION_PATCH)
    );
}

#[test]
fn test_init() {
    assert!(init().is_ok());
}

#[test]
fn version_tuple_matches_the_constants() {
    assert_eq!(version_tuple(), (0, 8, 0));
}

#[test]
fn test_verlet_integrator_creation() {
    let integrator = VerletIntegrator::new();

    // Just making sure creation doesn't panic
    assert_eq!(integrator, VerletIntegrator);
}

#[test]
fn test_initialization() {
    // Initialize with default settings
    let result = initialize(None);
    assert!(result.is_ok());

    // Initialize with custom oscillator count
    let result = initialize(Some(128));
    assert!(result.is_ok());

    // Initialize with too large oscillator count
    let result = initialize(Some(MAX_OSCILLATOR_COUNT + 1));
    assert!(result.is_err());
}

#[test]
fn initialize_accepts_exactly_up_to_the_maximum() {
    assert!(initialize(Some(MAX_OSCILLATOR_COUNT)).is_ok());
    assert_eq!(
        initialize(Some(usize::MAX)),
        Err("Oscillator count exceeds maximum supported value")
    );
    assert_eq!(Platform::Mobile.memory_target_mb(), 90);
    assert_eq!(Platform::Desktop.memory_target_mb(), 150);
}

#[test]
fn error_codes_are_fixed() {
    assert_eq!(AlanError::NoError.code(), 0);
    assert_eq!(AlanError::InvalidParameter.code(), 1);
    assert_eq!(AlanError::NumericalInstability.code(), 2);
    assert_eq!(AlanError::DimensionMismatch.code(), 3);
    assert_eq!(AlanError::AllocationFailure.code(), 4);
    assert_eq!(AlanError::IoError.code(), 5);
    assert_eq!(AlanError::InvalidSnapshot.code(), 6);
    assert_eq!(AlanError::EndianMismatch.code(), 7);
    assert_eq!(AlanError::SimulationActive.code(), 8);
    assert_eq!(AlanError::SimulationNotInitialized.code(), 9);
    assert_eq!(AlanError::UnknownError.code(), 999);
    assert_eq!(AlanError::from_code(8), AlanError::SimulationActive);
    assert_eq!(AlanError::from_code(10), AlanError::UnknownError);
    assert_eq!(AlanError::from_code(-1), AlanError::UnknownError);
}

#[test]
fn init_answers_in_the_order_endian_active_parameter() {
    assert_eq!(init_outcome(true, true, 0), AlanError::EndianMismatch);
    assert_eq!(init_outcome(false, true, 0), AlanError::SimulationActive);
    assert_eq!(init_outcome(false, false, 0), AlanError::InvalidParameter);
    assert_eq!(init_outcome(false, false, 1_000_001), AlanError::InvalidParameter);
    assert_eq!(init_outcome(false, false, 1_000_000), AlanError::NoError);
    assert_eq!(init_outcome(false, false, 1), AlanError::NoError);
    assert_eq!(init_snapshot_outcome(false, false, true, 10), AlanError::InvalidParameter);
    assert_eq!(init_snapshot_outcome(false, false, false, 0), AlanError::InvalidParameter);
    assert_eq!(init_snapshot_outcome(false, true, false, 10), AlanError::SimulationActive);
    assert_eq!(init_snapshot_outcome(false, false, false, 10), AlanError::NoError);
}

#[test]
fn buffers_must_match_the_state() {
    assert_eq!(state_len(32), 64);
    assert_eq!(buffer_outcome(true, true, 64, 64), AlanError::InvalidParameter);
    assert_eq!(buffer_outcome(false, false, 64, 64), AlanError::SimulationNotInitialized);
    assert_eq!(buffer_outcome(false, true, 63, 64), AlanError::DimensionMismatch);
    assert_eq!(buffer_outcome(false, true, 64, 64), AlanError::NoError);
    assert_eq!(active_outcome(false), AlanError::SimulationNotInitialized);
    assert_eq!(active_outcome(true), AlanError::NoError);
}

#[test]
fn integrate_rejects_zero_and_too_many_steps() {
    assert_eq!(integrate_outcome(0, true), AlanError::InvalidParameter);
    assert_eq!(integrate_outcome(1, false), AlanError::SimulationNotInitialized);
    assert_eq!(integrate_outcome(1_000_000_001, true), AlanError::InvalidParameter);
    assert_eq!(integrate_outcome(1_000_000_000, true), AlanError::NoError);
}

#[test]
fn step_counts_beyond_a_billion_are_invalid() {
    assert_eq!(check_step_count(0), Ok(()));
    assert_eq!(check_step_count(1_000_000_000), Ok(()));
    assert_eq!(
        check_step_count(1_000_000_001),
        Err(TrsError::InvalidParameter(ParameterFault::StepCount))
    );
}

#[test]
fn odd_states_have_no_momentum_half() {
    assert_eq!(momentum_offset(0), Ok(0));
    assert_eq!(momentum_offset(2), Ok(1));
    assert_eq!(momentum_offset(10), Ok(5));
    assert_eq!(momentum_offset(3), Err(TrsError::DimensionMismatch));
    assert!(comparable(4, 4));
    assert!(!comparable(4, 6));
    assert!(!comparable(3, 3));
}

#[test]
fn the_step_counter_never_goes_down() {
    let mut counter = StepCounter::new();
    let mut last = counter.steps;
    for _ in 0..100 {
        counter.record_step();
        assert!(counter.steps >= last);
        last = counter.steps;
    }
    assert_eq!(counter.steps, 100);
    let mut full = StepCounter { steps: u64::MAX };
    full.record_step();
    assert_eq!(full.steps, u64::MAX);
    counter.reset();
    assert_eq!(counter.steps, 0);
}

#[test]
fn coupling_must_be_square() {
    assert_eq!(check_coupling_shape(&[3, 3, 3], 3), Ok(()));
    assert_eq!(check_coupling_shape(&[], 0), Ok(()));
    assert_eq!(check_coupling_shape(&[3, 3], 3), Err(ShapeError::RowCount));
    assert_eq!(check_coupling_shape(&[3, 2, 3], 3), Err(ShapeError::ColumnCount));
    assert_eq!(check_step_shape(4, 4), Ok(()));
    assert_eq!(check_step_shape(4, 5), Err(ShapeError::StateSize));
    assert_eq!(
        ShapeError::StateSize.message(),
        "State size doesn't match coupling matrix"
    );
}

#[test]
fn controller_errors_have_fixed_messages() {
    assert_eq!(
        TrsError::NumericalInstability.message(),
        "Integration failed due to numerical instability"
    );
    assert_eq!(TrsError::DimensionMismatch.message(), "State dimension mismatch");
    assert_eq!(
        TrsError::InvalidParameter(ParameterFault::StepSize).message(),
        "Invalid parameter: dt must be finite, positive, and less than 1.0"
    );
    assert_eq!(
        TrsError::InvalidParameter(ParameterFault::LambdaTrs).message(),
        "Invalid parameter: lambda_trs must be non-negative"
    );
}
