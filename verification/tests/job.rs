use application_layer::error::JobError;
use application_layer::job::Job;
use application_layer::matrix::Matrix;

fn matrix(rows: Vec<Vec<i32>>) -> Matrix {
    Matrix::from_rows(&rows).unwrap()
}

fn matrix_a_4x4() -> Matrix {
    matrix(vec![
        vec![1, 2, 3, 4],
        vec![5, 6, 7, 8],
        vec![9, 10, 11, 12],
        vec![13, 14, 15, 16],
    ])
}

fn matrix_b_4x4() -> Matrix {
    matrix(vec![
        vec![17, 18, 19, 20],
        vec![21, 22, 23, 24],
        vec![25, 26, 27, 28],
        vec![29, 30, 31, 32],
    ])
}

#[test]
fn test_combine_results_1() {
    // Build
    let matrix_a = matrix_a_4x4();
    let matrix_b = matrix_b_4x4();

    let parallelized_data = Job::parallelize(&matrix_a, &matrix_b, 4).unwrap();
    let mut data = Job::convert_to_data_slices(parallelized_data);
    Job::test_matrix_multiplication(&mut data);

    // Execute
    let result = Job::combine_results(data, 4, 4);

    // Verify
    assert_eq!(result.ncols(), 4);
    assert_eq!(result.ncols(), 4);
    assert_eq!(
        result.to_rows(),
        vec![
            vec![1, 2, 3, 4],
            vec![5, 6, 7, 8],
            vec![9, 10, 11, 12],
            vec![13, 14, 15, 16],
        ]
    );
}

#[test]
fn test_convert_to_square_matrix_1() {
    // Build
    let matrix = matrix(vec![vec![1, 2, 3], vec![4, 5, 6]]);

    // Execute
    let quadratic_matrix = Job::convert_to_square_matrix(&matrix, 3).unwrap();

    // Verify
    assert_eq!(quadratic_matrix.ncols(), 3);
    assert_eq!(quadratic_matrix.nrows(), 3);
    assert_eq!(quadratic_matrix.get(1, 0), 4);
    assert_eq!(quadratic_matrix.get(1, 1), 5);
    assert_eq!(quadratic_matrix.get(1, 2), 6);
    assert_eq!(quadratic_matrix.get(2, 0), 0);
    assert_eq!(quadratic_matrix.get(2, 1), 0);
    assert_eq!(quadratic_matrix.get(2, 2), 0);
}

#[test]
#[should_panic]
fn test_convert_to_square_matrix_2() {
    // Build
    let matrix = matrix(vec![vec![1, 2, 3], vec![4, 5, 6]]);

    // Execute
    let _ = Job::convert_to_square_matrix(&matrix, 2).unwrap();
}

#[test]
fn test_parallelize_1() {
    // Build
    let matrix_a = matrix_a_4x4();
    let matrix_b = matrix_b_4x4();

    // Execute
    let mut tasks = Job::parallelize(&matrix_a, &matrix_b, 4).unwrap();

    // Verify
    assert_eq!(tasks.len(), 4);

    tasks.sort_by_key(|task| task.1);

    assert_eq!(tasks.get(0).unwrap().1, (0, 0));
    assert_eq!(tasks.get(1).unwrap().1, (0, 2));
    assert_eq!(tasks.get(2).unwrap().1, (2, 0));
    assert_eq!(tasks.get(3).unwrap().1, (2, 2));

    assert_eq!(tasks.get(0).unwrap().0 .0.to_rows(), vec![vec![1, 2], vec![5, 6]]);
    assert_eq!(tasks.get(1).unwrap().0 .0.to_rows(), vec![vec![3, 4], vec![7, 8]]);
    assert_eq!(tasks.get(2).unwrap().0 .0.to_rows(), vec![vec![9, 10], vec![13, 14]]);
    assert_eq!(tasks.get(3).unwrap().0 .0.to_rows(), vec![vec![11, 12], vec![15, 16]]);

    assert_eq!(tasks.get(0).unwrap().0 .1.to_rows(), vec![vec![17, 18], vec![21, 22]]);
    assert_eq!(tasks.get(1).unwrap().0 .1.to_rows(), vec![vec![19, 20], vec![23, 24]]);
    assert_eq!(tasks.get(2).unwrap().0 .1.to_rows(), vec![vec![25, 26], vec![29, 30]]);
    assert_eq!(tasks.get(3).unwrap().0 .1.to_rows(), vec![vec![27, 28], vec![31, 32]]);
}

#[test]
#[should_panic]
fn test_parallelize_2() {
    // Build
    let matrix_a = matrix_a_4x4();
    let matrix_b = matrix(vec![vec![17, 18, 19, 20], vec![21, 22, 23, 24]]);

    // Execute
    let _ = Job::parallelize(&matrix_a, &matrix_b, 4).unwrap();
}

#[test]
#[should_panic]
fn test_parallelize_3() {
    // Build
    let matrix_a = matrix(vec![vec![1, 2, 3, 4], vec![5, 6, 7, 8]]);
    let matrix_b = matrix(vec![vec![17, 18, 19, 20], vec![21, 22, 23, 24]]);

    // Execute
    let _ = Job::parallelize(&matrix_a, &matrix_b, 4).unwrap();
}

#[test]
#[should_panic]
fn test_parallelize_4() {
    // Build
    let matrix_a = matrix_a_4x4();
    let matrix_b = matrix_b_4x4();

    // Execute
    let _ = Job::parallelize(&matrix_a, &matrix_b, 10).unwrap();
}

#[test]
fn test_convert_to_data_slices_1() {
    // Build
    let matrix_a = matrix_a_4x4();
    let matrix_b = matrix_b_4x4();

    let tasks = Job::parallelize(&matrix_a, &matrix_b, 4).unwrap();

    // Execute
    let data_slices = Job::convert_to_data_slices(tasks);

    // Verify
    assert_eq!(data_slices.len(), 4);
}

#[test]
fn data_slices_keep_tiles_and_start_with_zero_results() {
    let tasks = Job::parallelize(&matrix_a_4x4(), &matrix_b_4x4(), 4).unwrap();
    let data_slices = Job::convert_to_data_slices(tasks);
    assert_eq!(data_slices[1].placement, (0, 2));
    assert_eq!(data_slices[1].a_sub.to_rows(), vec![vec![3, 4], vec![7, 8]]);
    assert_eq!(data_slices[1].b_sub.to_rows(), vec![vec![19, 20], vec![23, 24]]);
    assert_eq!(data_slices[1].result_sub.to_rows(), vec![vec![0, 0], vec![0, 0]]);
    assert_eq!(data_slices[3].placement, (2, 2));
    assert_eq!(data_slices[3].a_sub.to_rows(), vec![vec![11, 12], vec![15, 16]]);
}

#[test]
fn tiles_come_out_row_by_row() {
    let tasks = Job::parallelize(&matrix_a_4x4(), &matrix_b_4x4(), 4).unwrap();
    let placements: Vec<(u32, u32)> = tasks.iter().map(|task| task.1).collect();
    assert_eq!(placements, vec![(0, 0), (0, 2), (2, 0), (2, 2)]);
    for task in tasks.iter() {
        assert_eq!(task.1 .0 % 2, 0);
        assert_eq!(task.1 .1 % 2, 0);
        assert_eq!(task.0 .0.nrows(), 2);
        assert_eq!(task.0 .0.ncols(), 2);
        assert_eq!(task.0 .1.nrows(), 2);
        assert_eq!(task.0 .1.ncols(), 2);
    }
}

#[test]
fn two_tiles_are_each_the_full_matrix() {
    let tasks = Job::parallelize(&matrix_a_4x4(), &matrix_b_4x4(), 2).unwrap();
    assert_eq!(tasks.len(), 2);
    for task in tasks.iter() {
        assert_eq!(task.1, (0, 0));
        assert_eq!(task.0 .0.to_rows(), matrix_a_4x4().to_rows());
        assert_eq!(task.0 .1.to_rows(), matrix_b_4x4().to_rows());
    }
}

#[test]
fn eight_tiles_take_the_first_two_rows_of_blocks() {
    let tasks = Job::parallelize(&matrix_a_4x4(), &matrix_b_4x4(), 8).unwrap();
    let placements: Vec<(u32, u32)> = tasks.iter().map(|task| task.1).collect();
    assert_eq!(
        placements,
        vec![(0, 0), (0, 1), (0, 2), (0, 3), (1, 0), (1, 1), (1, 2), (1, 3)]
    );
    assert_eq!(tasks[6].0 .0.to_rows(), vec![vec![7]]);
    assert_eq!(tasks[6].0 .1.to_rows(), vec![vec![23]]);

    let mut data = Job::convert_to_data_slices(tasks);
    Job::test_matrix_multiplication(&mut data);
    let result = Job::combine_results(data, 4, 4);
    assert_eq!(
        result.to_rows(),
        vec![
            vec![1, 2, 3, 4],
            vec![5, 6, 7, 8],
            vec![0, 0, 0, 0],
            vec![0, 0, 0, 0],
        ]
    );
}

#[test]
fn tiler_rejects_an_odd_tile_count() {
    let res = Job::parallelize(&matrix_a_4x4(), &matrix_b_4x4(), 3);
    assert_eq!(res.unwrap_err(), JobError::OddTileCount);
}

#[test]
fn tiler_rejects_a_tile_count_that_does_not_divide_the_side() {
    let res = Job::parallelize(&matrix_a_4x4(), &matrix_b_4x4(), 10);
    assert_eq!(res.unwrap_err(), JobError::IndivisibleDimension);
    let res = Job::parallelize(&matrix_a_4x4(), &matrix_b_4x4(), 6);
    assert_eq!(res.unwrap_err(), JobError::IndivisibleDimension);
}

#[test]
fn tiler_rejects_zero_tiles() {
    let res = Job::parallelize(&matrix_a_4x4(), &matrix_b_4x4(), 0);
    assert_eq!(res.unwrap_err(), JobError::IndivisibleDimension);
}

#[test]
fn tiler_rejects_a_matrix_that_is_not_square() {
    let wide = matrix(vec![vec![1, 2, 3, 4], vec![5, 6, 7, 8]]);
    let res = Job::parallelize(&wide, &matrix_b_4x4(), 4);
    assert_eq!(res.unwrap_err(), JobError::NonSquareOrMismatched);
    let res = Job::parallelize(&matrix_a_4x4(), &wide, 4);
    assert_eq!(res.unwrap_err(), JobError::NonSquareOrMismatched);
}

#[test]
fn tiler_rejects_squares_of_different_sides() {
    let small = matrix(vec![vec![1, 2], vec![3, 4]]);
    let res = Job::parallelize(&matrix_a_4x4(), &small, 4);
    assert_eq!(res.unwrap_err(), JobError::NonSquareOrMismatched);
}

#[test]
fn tiler_checks_the_shapes_before_the_tile_count() {
    let wide = matrix(vec![vec![1, 2, 3, 4], vec![5, 6, 7, 8]]);
    let res = Job::parallelize(&wide, &wide, 3);
    assert_eq!(res.unwrap_err(), JobError::NonSquareOrMismatched);
    let res = Job::parallelize(&matrix_a_4x4(), &matrix_b_4x4(), 7);
    assert_eq!(res.unwrap_err(), JobError::OddTileCount);
}

#[test]
fn tiler_cuts_empty_matrices_into_empty_tiles() {
    let empty = Matrix::zeros(0, 0);
    let tasks = Job::parallelize(&empty, &empty, 4).unwrap();
    assert_eq!(tasks.len(), 4);
    for task in tasks.iter() {
        assert_eq!(task.1, (0, 0));
        assert_eq!(task.0 .0.nrows(), 0);
        assert_eq!(task.0 .0.ncols(), 0);
    }
}

#[test]
fn squaring_pads_with_zeros() {
    let m = matrix(vec![vec![1, 2, 3], vec![4, 5, 6]]);
    let squared = Job::convert_to_square_matrix(&m, 3).unwrap();
    assert_eq!(
        squared.to_rows(),
        vec![vec![1, 2, 3], vec![4, 5, 6], vec![0, 0, 0]]
    );
    assert_eq!(m.to_rows(), vec![vec![1, 2, 3], vec![4, 5, 6]]);
}

#[test]
fn squaring_to_a_larger_side_pads_rows_and_columns() {
    let m = matrix(vec![vec![1, 2], vec![3, 4], vec![5, 6]]);
    let squared = Job::convert_to_square_matrix(&m, 4).unwrap();
    assert_eq!(
        squared.to_rows(),
        vec![
            vec![1, 2, 0, 0],
            vec![3, 4, 0, 0],
            vec![5, 6, 0, 0],
            vec![0, 0, 0, 0],
        ]
    );
}

#[test]
fn squaring_fails_below_the_larger_extent() {
    let m = matrix(vec![vec![1, 2, 3], vec![4, 5, 6]]);
    let res = Job::convert_to_square_matrix(&m, 2);
    assert_eq!(res.unwrap_err(), JobError::DimensionTooSmall);
    let tall = matrix(vec![vec![1], vec![2], vec![3]]);
    let res = Job::convert_to_square_matrix(&tall, 2);
    assert_eq!(res.unwrap_err(), JobError::DimensionTooSmall);
    assert!(Job::convert_to_square_matrix(&tall, 3).is_ok());
}

#[test]
fn a_side_that_is_too_small_fails_whatever_its_square_would_need() {
    let flat = Matrix::zeros(0, usize::MAX / 2);
    let res = Job::convert_to_square_matrix(&flat, usize::MAX / 4);
    assert_eq!(res.unwrap_err(), JobError::DimensionTooSmall);
    let res = Job::try_convert_to_square_matrix(&flat, usize::MAX / 4);
    assert_eq!(res.unwrap().unwrap_err(), JobError::DimensionTooSmall);
}

#[test]
fn checked_squaring_refuses_a_square_that_cannot_be_stored() {
    let flat = Matrix::zeros(0, usize::MAX / 2);
    assert!(Job::try_convert_to_square_matrix(&flat, usize::MAX / 2).is_none());
    assert!(Job::try_convert_to_square_matrix(&flat, usize::MAX).is_none());
}

#[test]
fn checked_squaring_pads_like_squaring() {
    let m = matrix(vec![vec![1, 2, 3], vec![4, 5, 6]]);
    let squared = Job::try_convert_to_square_matrix(&m, 3).unwrap().unwrap();
    assert_eq!(squared.nrows(), 3);
    assert_eq!(squared.ncols(), 3);
    assert_eq!(
        squared.to_rows(),
        vec![vec![1, 2, 3], vec![4, 5, 6], vec![0, 0, 0]]
    );
    let res = Job::try_convert_to_square_matrix(&m, 2);
    assert_eq!(res.unwrap().unwrap_err(), JobError::DimensionTooSmall);
}

#[test]
fn squaring_an_empty_matrix_gives_an_empty_square() {
    let empty = Matrix::zeros(0, 0);
    let squared = Job::convert_to_square_matrix(&empty, 0).unwrap();
    assert_eq!(squared.nrows(), 0);
    assert_eq!(squared.ncols(), 0);
    let flat = Matrix::zeros(0, 3);
    let squared = Job::convert_to_square_matrix(&flat, 3).unwrap();
    assert_eq!(
        squared.to_rows(),
        vec![vec![0, 0, 0], vec![0, 0, 0], vec![0, 0, 0]]
    );
}

#[test]
fn blocks_without_rows_keep_their_column_count() {
    let tasks = vec![((Matrix::zeros(0, 5), Matrix::zeros(0, 7)), (3, 4))];
    let mut data = Job::convert_to_data_slices(tasks);
    assert_eq!(data.len(), 1);
    assert_eq!(data[0].placement, (3, 4));
    assert_eq!(data[0].a_sub.nrows(), 0);
    assert_eq!(data[0].a_sub.ncols(), 5);
    assert_eq!(data[0].b_sub.nrows(), 0);
    assert_eq!(data[0].b_sub.ncols(), 7);
    assert_eq!(data[0].result_sub.nrows(), 0);
    assert_eq!(data[0].result_sub.ncols(), 5);

    data[0].result_sub = Matrix::zeros(2, 2);
    Job::test_matrix_multiplication(&mut data);
    assert_eq!(data[0].placement, (3, 4));
    assert_eq!(data[0].a_sub.ncols(), 5);
    assert_eq!(data[0].b_sub.ncols(), 7);
    assert_eq!(data[0].result_sub.nrows(), 0);
    assert_eq!(data[0].result_sub.ncols(), 5);
}

#[test]
fn the_stand_in_kernel_leaves_operands_and_placement_alone() {
    let tasks = Job::parallelize(&matrix_a_4x4(), &matrix_b_4x4(), 4).unwrap();
    let mut data = Job::convert_to_data_slices(tasks);
    Job::test_matrix_multiplication(&mut data);
    assert_eq!(data.len(), 4);
    assert_eq!(data[2].placement, (2, 0));
    assert_eq!(data[2].a_sub.to_rows(), vec![vec![9, 10], vec![13, 14]]);
    assert_eq!(data[2].b_sub.to_rows(), vec![vec![25, 26], vec![29, 30]]);
    assert_eq!(data[2].result_sub.to_rows(), vec![vec![9, 10], vec![13, 14]]);
}

#[test]
fn a_job_of_empty_inputs_has_empty_square_blocks() {
    let empty = Matrix::zeros(0, 0);
    let job = Job::create(&empty, &empty, 4).unwrap();
    assert_eq!(job.num_of_tasks(), 4);
    for payload in job.payloads().iter() {
        assert_eq!(payload.placement, (0, 0));
        assert_eq!(payload.a_sub.nrows(), 0);
        assert_eq!(payload.a_sub.ncols(), 0);
        assert_eq!(payload.b_sub.ncols(), 0);
        assert_eq!(payload.result_sub.nrows(), 0);
        assert_eq!(payload.result_sub.ncols(), 0);
    }
    let result = job.finish(Vec::new());
    assert_eq!(result.nrows(), 0);
    assert_eq!(result.ncols(), 0);
}

#[test]
fn both_inputs_are_squared_to_the_largest_extent() {
    let a = matrix(vec![vec![1, 2, 3], vec![4, 5, 6]]);
    let b = matrix(vec![vec![7], vec![8], vec![9], vec![10]]);
    assert_eq!(Job::max_dimension(&a, &b), 4);
    let (square_a, square_b) = Job::square_inputs(&a, &b).unwrap();
    assert_eq!(
        square_a.to_rows(),
        vec![
            vec![1, 2, 3, 0],
            vec![4, 5, 6, 0],
            vec![0, 0, 0, 0],
            vec![0, 0, 0, 0],
        ]
    );
    assert_eq!(
        square_b.to_rows(),
        vec![
            vec![7, 0, 0, 0],
            vec![8, 0, 0, 0],
            vec![9, 0, 0, 0],
            vec![10, 0, 0, 0],
        ]
    );
}

#[test]
fn inputs_are_not_squared_beyond_what_can_be_stored() {
    let flat = Matrix::zeros(0, usize::MAX / 2);
    assert!(Job::square_inputs(&flat, &matrix_a_4x4()).is_none());
    assert!(Job::square_inputs(&matrix_a_4x4(), &flat).is_none());
}

#[test]
fn identity_kernel_gives_the_first_input_back() {
    let matrix_a = matrix_a_4x4();
    let matrix_b = matrix_b_4x4();
    let job = Job::create(&matrix_a, &matrix_b, 4).unwrap();
    assert_eq!(job.num_of_tasks(), 4);
    assert_eq!(job.rows(), 4);
    assert_eq!(job.cols(), 4);

    let tasks = Job::parallelize(&matrix_a, &matrix_b, 4).unwrap();
    let mut data = Job::convert_to_data_slices(tasks);
    for (sent, planned) in data.iter().zip(job.payloads().iter()) {
        assert_eq!(sent.placement, planned.placement);
        assert_eq!(sent.a_sub.to_rows(), planned.a_sub.to_rows());
        assert_eq!(sent.b_sub.to_rows(), planned.b_sub.to_rows());
        assert_eq!(sent.result_sub.to_rows(), planned.result_sub.to_rows());
    }
    Job::test_matrix_multiplication(&mut data);
    let result = job.finish(data);
    assert_eq!(result.to_rows(), matrix_a.to_rows());
}

#[test]
fn results_may_come_back_in_any_order() {
    let tasks = Job::parallelize(&matrix_a_4x4(), &matrix_b_4x4(), 4).unwrap();
    let mut data = Job::convert_to_data_slices(tasks);
    Job::test_matrix_multiplication(&mut data);
    data.reverse();
    let result = Job::combine_results(data, 4, 4);
    assert_eq!(result.to_rows(), matrix_a_4x4().to_rows());
}

#[test]
fn padded_input_is_cropped_on_reassembly() {
    let a = matrix(vec![vec![1, 2, 3], vec![4, 5, 6]]);
    let b = matrix(vec![vec![7, 8], vec![9, 10], vec![11, 12]]);
    let job = Job::create(&a, &b, 6).unwrap();
    assert_eq!(job.num_of_tasks(), 6);
    assert_eq!(job.rows(), 2);
    assert_eq!(job.cols(), 2);
    assert_eq!(job.payloads()[5].placement, (1, 2));
    assert_eq!(job.payloads()[5].a_sub.to_rows(), vec![vec![6]]);
    assert_eq!(job.payloads()[5].b_sub.to_rows(), vec![vec![0]]);

    let tasks = Job::parallelize(
        &Job::convert_to_square_matrix(&a, 3).unwrap(),
        &Job::convert_to_square_matrix(&b, 3).unwrap(),
        6,
    )
    .unwrap();
    let mut data = Job::convert_to_data_slices(tasks);
    Job::test_matrix_multiplication(&mut data);
    let result = job.finish(data);
    assert_eq!(result.to_rows(), vec![vec![1, 2], vec![4, 5]]);

    let tasks = Job::parallelize(
        &Job::convert_to_square_matrix(&a, 3).unwrap(),
        &Job::convert_to_square_matrix(&b, 3).unwrap(),
        6,
    )
    .unwrap();
    let mut data = Job::convert_to_data_slices(tasks);
    Job::test_matrix_multiplication(&mut data);
    let cropped_to_a = Job::combine_results(data, 2, 3);
    assert_eq!(cropped_to_a.to_rows(), a.to_rows());
}

#[test]
fn tiles_that_overhang_the_result_are_clipped() {
    let a = matrix(vec![vec![1, 2, 3], vec![4, 5, 6], vec![7, 8, 9]]);
    let squared = Job::convert_to_square_matrix(&a, 4).unwrap();
    let tasks = Job::parallelize(&squared, &squared, 4).unwrap();
    let mut data = Job::convert_to_data_slices(tasks);
    Job::test_matrix_multiplication(&mut data);
    let result = Job::combine_results(data, 3, 3);
    assert_eq!(result.to_rows(), a.to_rows());
}

#[test]
fn reassembly_without_payloads_is_zero() {
    let result = Job::combine_results(Vec::new(), 2, 3);
    assert_eq!(result.to_rows(), vec![vec![0, 0, 0], vec![0, 0, 0]]);
}

#[test]
fn later_payloads_overwrite_earlier_ones() {
    let tasks = Job::parallelize(&matrix_a_4x4(), &matrix_b_4x4(), 2).unwrap();
    let mut data = Job::convert_to_data_slices(tasks);
    data[0].result_sub = matrix_a_4x4();
    data[1].result_sub = matrix_b_4x4();
    let result = Job::combine_results(data, 4, 4);
    assert_eq!(result.to_rows(), matrix_b_4x4().to_rows());
}

#[test]
fn job_creation_reports_the_tilers_errors() {
    let a = matrix_a_4x4();
    let b = matrix_b_4x4();
    assert_eq!(Job::create(&a, &b, 5).unwrap_err(), JobError::OddTileCount);
    assert_eq!(
        Job::create(&a, &b, 10).unwrap_err(),
        JobError::IndivisibleDimension
    );
    assert_eq!(
        Job::create(&a, &b, 0).unwrap_err(),
        JobError::IndivisibleDimension
    );
}

#[test]
fn job_creation_squares_inputs_of_different_shapes() {
    let a = matrix_a_4x4();
    let b = matrix(vec![vec![17, 18, 19, 20], vec![21, 22, 23, 24]]);
    let job = Job::create(&a, &b, 4).unwrap();
    assert_eq!(job.rows(), 4);
    assert_eq!(job.cols(), 4);
    assert_eq!(
        job.payloads()[2].b_sub.to_rows(),
        vec![vec![0, 0], vec![0, 0]]
    );
    assert_eq!(
        job.payloads()[1].b_sub.to_rows(),
        vec![vec![19, 20], vec![23, 24]]
    );
}

#[test]
fn checked_creation_refuses_a_square_that_cannot_be_stored() {
    let flat = Matrix::zeros(0, usize::MAX / 2);
    assert!(Job::try_create(&flat, &flat, 4).is_none());
    let a = matrix_a_4x4();
    assert!(Job::try_create(&flat, &a, 4).is_none());
    let job = Job::try_create(&a, &a, 4).unwrap().unwrap();
    assert_eq!(job.num_of_tasks(), 4);
    assert_eq!(
        Job::try_create(&a, &a, 3).unwrap().unwrap_err(),
        JobError::OddTileCount
    );
}
