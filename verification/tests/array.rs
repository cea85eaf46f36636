use rds::array::{
    arrays_equal, is_in_bounds, is_well_formed, shape_is_addressable, shape_product, NDArray,
    NDData, NDDataMut, NDSliceable, NDSliceableMut,
};

fn filled_3d() -> NDArray<f64> {
    let mut array = NDArray::<f64>::new(&[3, 3, 3], 0.0);
    for i in 0..3 {
        for j in 0..3 {
            for k in 0..3 {
                *array.idx_mut(&[i, j, k]) = (i * 3 + j * 5 + k * 7) as f64;
            }
        }
    }
    array
}

#[test]
fn indexing() {
    let array = filled_3d();
    for i in 0..3 {
        for j in 0..3 {
            for k in 0..3 {
                assert!(array[&[i, j, k]] == (i * 3 + j * 5 + k * 7) as f64);
            }
        }
    }
}

#[test]
#[should_panic]
fn indexing_wrongdim() {
    let mut array = NDArray::<f64>::new(&[3, 3, 3], 0.0);
    let idx = [1, 2];
    assert!(is_in_bounds(&idx, array.shape()));
    *array.idx_mut(&idx) = 1.0;
}

#[test]
#[should_panic]
fn indexing_outofbound() {
    let mut array = NDArray::<f64>::new(&[3, 3, 3], 0.0);
    let idx = [1, 4, 1];
    assert!(is_in_bounds(&idx, array.shape()));
    *array.idx_mut(&idx) = 1.0;
}

#[test]
fn slicing() {
    let array = filled_3d();
    for i in 0..3 {
        let slice2d = array.slice(&[i]);
        for j in 0..3 {
            let slice1d = slice2d.slice(&[j]);
            for k in 0..3 {
                assert!(slice1d[&[k]] == (i * 3 + j * 5 + k * 7) as f64);
            }
        }
    }
}

#[test]
fn slicing_mut() {
    let mut array = NDArray::<f64>::new(&[3, 3, 3], 0.0);
    for i in 0..3 {
        for j in 0..3 {
            let mut slice1d = array.slice_mut(&[i, j]);
            for k in 0..3 {
                *slice1d.idx_mut(&[k]) = (i * 3 + j * 5 + k * 7) as f64;
            }
        }
    }
    for i in 0..3 {
        for j in 0..3 {
            for k in 0..3 {
                assert!(array[&[i, j, k]] == (i * 3 + j * 5 + k * 7) as f64);
            }
        }
    }
}

#[test]
fn copy() {
    let mut array = NDArray::<f64>::new(&[3, 3, 3], 0.0);
    for i in 0..3 {
        for j in 0..3 {
            for k in 0..3 {
                *array.idx_mut(&[i, j, k]) = (i * j * k) as f64;
            }
        }
    }
    let array2 = NDArray::copy(&array.slice(&[2]));
    for i in 0..3 {
        for j in 0..3 {
            assert!(array2[&[i, j]] == (i * j * 2) as f64);
        }
    }
}

#[test]
fn from_slice() {
    let mut array = NDArray::<f64>::new(&[3, 3, 3], 0.0);
    for i in 0..3 {
        for j in 0..3 {
            for k in 0..3 {
                *array.idx_mut(&[i, j, k]) = (i * j * k) as f64;
            }
        }
    }
    let array2 = NDArray::from_slice(&[3, 3, 3], array.get_data());
    for i in 0..3 {
        for j in 0..3 {
            for k in 0..3 {
                assert!(array2[&[i, j, k]] == (i * j * k) as f64);
            }
        }
    }
}

#[test]
fn reshape() {
    let mut array = NDArray::<f64>::new(&[3], 0.0);
    for i in 0..3 {
        *array.idx_mut(&[i]) = i as f64;
    }
    array.reshape(&[1, 3]);
    for i in 0..3 {
        assert!(array[&[0, i]] == i as f64);
    }
}

#[test]
#[should_panic]
fn reshape_invalid() {
    let mut array = NDArray::<f64>::new(&[3], 0.0);
    for i in 0..3 {
        *array.idx_mut(&[i]) = i as f64;
    }
    assert!(shape_is_addressable(&[3, 3]) && shape_product(&[3, 3]) == array.size());
    array.reshape(&[3, 3]);
    for i in 0..3 {
        assert!(array[&[i, i]] == i as f64);
    }
}

#[test]
fn generic_transpose_2d() {
    let mut array = filled_3d();
    array.slice_mut(&[1]).transpose();
    for i in 0..3 {
        for j in 0..3 {
            assert!(array[&[1, j, i]] == (3 + i * 5 + j * 7) as f64);
        }
    }
}

#[test]
fn generic_transpose_3d() {
    let mut array = filled_3d();
    array.transpose();
    for i in 0..3 {
        for j in 0..3 {
            for k in 0..3 {
                assert!(array[&[k, j, i]] == (i * 3 + j * 5 + k * 7) as f64);
            }
        }
    }
}

#[test]
#[should_panic]
fn generic_transpose_wrong_shape() {
    let mut array = NDArray::<f64>::new(&[3, 3, 4], 0.0);
    let mut view = array.slice_mut(&[]);
    let first = view.shape()[0];
    assert!(view.shape().iter().all(|d| *d == first));
    view.transpose();
}

#[test]
fn generic_transpose_of_whole_array() {
    let mut array = filled_3d();
    NDDataMut::transpose(&mut array);
    assert_eq!(array.shape(), &[3, 3, 3]);
    for i in 0..3 {
        for j in 0..3 {
            for k in 0..3 {
                assert!(array[&[k, j, i]] == (i * 3 + j * 5 + k * 7) as f64);
            }
        }
    }
    let mut whole = filled_3d();
    whole.slice_mut(&[]).transpose();
    assert!(whole == array);
}

#[test]
fn transpose_2d() {
    let mut array = NDArray::<f64>::new(&[3, 4], 0.0);
    for i in 0..3 {
        for j in 0..4 {
            *array.idx_mut(&[i, j]) = (i * 3 + j * 5) as f64;
        }
    }
    array.transpose();
    assert_eq!(array.shape(), &[4, 3]);
    for i in 0..3 {
        for j in 0..4 {
            assert!(array[&[j, i]] == (i * 3 + j * 5) as f64);
        }
    }
}

#[test]
fn transpose_3d() {
    let mut array = NDArray::<f64>::new(&[3, 4, 5], 0.0);
    for i in 0..3 {
        for j in 0..4 {
            for k in 0..5 {
                *array.idx_mut(&[i, j, k]) = (i * 3 + j * 5 + k * 7) as f64;
            }
        }
    }
    array.transpose();
    for i in 0..3 {
        for j in 0..4 {
            for k in 0..5 {
                assert!(array[&[k, j, i]] == (i * 3 + j * 5 + k * 7) as f64);
            }
        }
    }
}

#[test]
fn transpose_twice_restores() {
    let mut array = NDArray::<f64>::new(&[3, 4, 5], 0.0);
    for i in 0..3 {
        for j in 0..4 {
            for k in 0..5 {
                *array.idx_mut(&[i, j, k]) = (i * 3 + j * 5 + k * 7) as f64;
            }
        }
    }
    let original = NDArray::copy(&array);
    array.transpose();
    assert!(array != original);
    array.transpose();
    assert!(array == original);
    assert_eq!(array.shape(), &[3, 4, 5]);
}

#[test]
fn equality() {
    assert!(NDArray::<u8>::new(&[3, 3, 3], 0) == NDArray::<u8>::new(&[3, 3, 3], 0));
    assert!(NDArray::<u8>::new(&[3, 3, 3], 0) != NDArray::<u8>::new(&[3, 3], 0));
    assert!(NDArray::<u8>::new(&[3, 4], 0) != NDArray::<u8>::new(&[3, 3], 0));
    assert!(NDArray::<u8>::new(&[3], 0) != NDArray::<u8>::new(&[3], 1));
    assert!(
        NDArray::<u8>::new(&[4, 3], 0).slice(&[1]) == NDArray::<u8>::new(&[2, 3], 0).slice(&[1])
    );
}

#[test]
fn equality_same_size_other_shape() {
    assert!(NDArray::<u8>::new(&[2, 6], 0) != NDArray::<u8>::new(&[3, 4], 0));
    assert!(NDArray::<u8>::new(&[12], 0) != NDArray::<u8>::new(&[3, 4], 0));
    let a = NDArray::<u8>::new(&[4, 3], 0);
    let b = NDArray::<u8>::new(&[3], 0);
    assert!(arrays_equal(&a.slice(&[1]), &b));
    assert!(!arrays_equal(&a, &b));
}

#[test]
fn assignement() {
    let mut array3d = NDArray::<f64>::new(&[3, 3, 3], 0.0);
    let mut array2d = NDArray::<f64>::new(&[3, 3], 0.0);
    for i in 0..3 {
        for j in 0..3 {
            *array2d.idx_mut(&[i, j]) = (i * 3 + j * 5) as f64;
        }
    }
    for i in 0..3 {
        array3d.slice_mut(&[i]).assign(&array2d);
    }
    for i in 0..3 {
        for j in 0..3 {
            for k in 0..3 {
                assert!(array3d[&[i, j, k]] == (j * 3 + k * 5) as f64);
            }
        }
    }
}

#[test]
fn insert() {
    let mut array1d = NDArray::<f64>::new(&[3], 0.0);
    let mut array2d = NDArray::<f64>::new(&[3, 3], 0.0);
    let mut array3d = NDArray::<f64>::new(&[3, 3, 3], 0.0);

    array1d.insert(0, 1, &NDArray::<f64>::new(&[1], 1.0));
    assert_eq!(array1d[&[1]], 1.0);

    array2d.insert(0, 1, &NDArray::<f64>::new(&[1, 3], 1.0));
    for i in 0..3 {
        assert_eq!(array2d[&[1, i]], 1.0);
    }
    array2d.insert(1, 1, &NDArray::<f64>::new(&[4, 1], 1.0));
    for i in 0..4 {
        assert_eq!(array2d[&[i, 1]], 1.0);
    }

    array3d.insert(0, 1, &NDArray::<f64>::new(&[1, 3, 3], 1.0));
    for i in 0..3 {
        for j in 0..3 {
            assert_eq!(array3d[&[1, i, j]], 1.0);
        }
    }
    array3d.insert(1, 1, &NDArray::<f64>::new(&[4, 1, 3], 1.0));
    for i in 0..4 {
        for j in 0..3 {
            assert_eq!(array3d[&[i, 1, j]], 1.0);
        }
    }
    array3d.insert(2, 1, &NDArray::<f64>::new(&[4, 4, 1], 1.0));
    for i in 0..4 {
        for j in 0..4 {
            assert_eq!(array3d[&[i, j, 1]], 1.0);
        }
    }
}

#[test]
fn insert_places_every_element() {
    let mut array = NDArray::<u8>::from_slice(&[2, 2], &[1, 2, 3, 4]);
    array.insert(1, 1, &NDArray::<u8>::from_slice(&[2, 2], &[10, 11, 12, 13]));
    assert_eq!(array.shape(), &[2, 4]);
    assert_eq!(array.strides(), &[4, 1]);
    assert_eq!(array.get_data(), &[1, 10, 11, 2, 3, 12, 13, 4]);
    array.insert(0, 2, &NDArray::<u8>::new(&[1, 4], 9));
    assert_eq!(array.shape(), &[3, 4]);
    assert_eq!(array.get_data(), &[1, 10, 11, 2, 3, 12, 13, 4, 9, 9, 9, 9]);
}

#[test]
fn extract() {
    let mut array1d = NDArray::<f64>::new(&[4], 0.0);
    let mut array2d = NDArray::<f64>::new(&[4, 4], 0.0);
    let mut array3d = NDArray::<f64>::new(&[4, 4, 4], 0.0);

    for i in 0..4 {
        *array1d.idx_mut(&[i]) = (i * 3) as f64;
        for j in 0..4 {
            *array2d.idx_mut(&[i, j]) = (i * 3 + j * 5) as f64;
            for k in 0..4 {
                *array3d.idx_mut(&[i, j, k]) = (i * 3 + j * 5 + k * 7) as f64;
            }
        }
    }

    let extracted1d = array1d.extract(&[1], &[3]);
    let extracted2d = array2d.extract(&[1, 1], &[3, 3]);
    let extracted3d = array3d.extract(&[1, 1, 1], &[3, 3, 3]);

    for i in 0..2 {
        assert_eq!(extracted1d[&[i]], ((i + 1) * 3) as f64);
        for j in 0..2 {
            assert_eq!(extracted2d[&[i, j]], ((i + 1) * 3 + (j + 1) * 5) as f64);
            for k in 0..2 {
                assert_eq!(
                    extracted3d[&[i, j, k]],
                    ((i + 1) * 3 + (j + 1) * 5 + (k + 1) * 7) as f64
                );
            }
        }
    }
}

#[test]
fn remove() {
    let mut array1d = NDArray::<f64>::new(&[3], 0.0);
    let mut array2d = NDArray::<f64>::new(&[3, 3], 0.0);
    let mut array3d = NDArray::<f64>::new(&[3, 3, 3], 0.0);

    array1d.insert(0, 1, &NDArray::<f64>::new(&[1], 1.0));
    array1d.remove(0, 1, 2);
    assert!(array1d == NDArray::<f64>::new(&[3], 0.0));

    array2d.insert(0, 1, &NDArray::<f64>::new(&[1, 3], 1.0));
    array2d.insert(1, 1, &NDArray::<f64>::new(&[4, 1], 1.0));
    array2d.remove(1, 1, 2);
    array2d.remove(0, 1, 2);
    assert!(array2d == NDArray::<f64>::new(&[3, 3], 0.0));

    array3d.insert(0, 1, &NDArray::<f64>::new(&[1, 3, 3], 1.0));
    array3d.insert(1, 1, &NDArray::<f64>::new(&[4, 1, 3], 1.0));
    array3d.insert(2, 1, &NDArray::<f64>::new(&[4, 4, 1], 1.0));
    array3d.remove(2, 1, 2);
    array3d.remove(1, 1, 2);
    array3d.remove(0, 1, 2);
    assert!(array3d == NDArray::<f64>::new(&[3, 3, 3], 0.0));
}

#[test]
fn join_split() {
    let mut array1d = NDArray::<f64>::new(&[3], 0.0);
    let mut array2d = NDArray::<f64>::new(&[3, 3], 0.0);
    let mut array3d = NDArray::<f64>::new(&[3, 3, 3], 0.0);

    array1d.insert(0, 3, &NDArray::<f64>::new(&[2], 1.0));
    assert!(array1d.split(0, 3) == NDArray::<f64>::new(&[2], 1.0));
    assert!(array1d == NDArray::<f64>::new(&[3], 0.0));
    array2d.insert(1, 3, &NDArray::<f64>::new(&[3, 2], 1.0));
    assert!(array2d.split(1, 3) == NDArray::<f64>::new(&[3, 2], 1.0));
    assert!(array2d == NDArray::<f64>::new(&[3, 3], 0.0));
    array3d.insert(2, 3, &NDArray::<f64>::new(&[3, 3, 2], 1.0));
    assert!(array3d.split(2, 3) == NDArray::<f64>::new(&[3, 3, 2], 1.0));
    assert!(array3d == NDArray::<f64>::new(&[3, 3, 3], 0.0));
}

#[test]
fn split_then_insert_restores() {
    let mut array = NDArray::<u8>::from_slice(&[2, 3], &[1, 2, 3, 4, 5, 6]);
    let original = NDArray::copy(&array);
    let upper = array.split(1, 1);
    assert_eq!(array.shape(), &[2, 1]);
    assert_eq!(array.get_data(), &[1, 4]);
    assert_eq!(upper.shape(), &[2, 2]);
    assert_eq!(upper.get_data(), &[2, 3, 5, 6]);
    array.insert(1, 1, &upper);
    assert!(array == original);
}

#[test]
fn new_fills_every_element() {
    let array = NDArray::<u8>::new(&[4, 3], 7);
    assert_eq!(array.dim(), 2);
    assert_eq!(array.size(), 12);
    assert_eq!(array.shape(), &[4, 3]);
    assert_eq!(array.strides(), &[3, 1]);
    assert_eq!(array.get_data().len(), 12);
    for i in 0..4 {
        for j in 0..3 {
            assert_eq!(*array.idx(&[i, j]), 7);
            assert_eq!(array[&[i, j]], 7);
        }
    }
    let empty = NDArray::<u8>::new(&[2, 0, 3], 7);
    assert_eq!(empty.size(), 0);
    assert_eq!(empty.get_data().len(), 0);
    let scalar = NDArray::<u8>::new(&[], 7);
    assert_eq!(scalar.size(), 1);
    assert_eq!(*scalar.idx(&[]), 7);
}

#[test]
fn slice_shape_is_tail() {
    let array = NDArray::<u8>::new(&[2, 3, 4], 0);
    assert_eq!(array.slice(&[1]).shape(), &[3, 4]);
    assert_eq!(array.slice(&[1]).strides(), &[4, 1]);
    assert_eq!(array.slice(&[1, 2]).shape(), &[4]);
    assert_eq!(array.slice(&[]).shape(), &[2, 3, 4]);
    assert_eq!(array.slice(&[1, 2]).size(), 4);
}

#[test]
fn cast_between_integers() {
    let array = NDArray::<i32>::from_slice(&[2, 2], &[1, -1, 300, 65536]);
    let bytes: NDArray<u8> = NDArray::cast(&array);
    assert_eq!(bytes.shape(), &[2, 2]);
    assert_eq!(bytes.get_data(), &[1, 255, 44, 0]);
    let wide: NDArray<i64> = NDArray::cast(&array);
    assert_eq!(wide.get_data(), &[1, -1, 300, 65536]);
}

#[test]
fn well_formed_and_addressable() {
    let array = NDArray::<u8>::new(&[2, 3], 1);
    assert!(is_well_formed(&array));
    assert!(is_well_formed(&array.slice(&[1])));
    assert!(shape_is_addressable(&[2, 3]));
    assert!(shape_is_addressable(&[usize::MAX]));
    assert!(shape_is_addressable(&[0, usize::MAX]));
    assert!(!shape_is_addressable(&[usize::MAX, 2]));
    assert!(!shape_is_addressable(&[0, usize::MAX, 2]));
    assert_eq!(shape_product(&[2, 3, 4]), 24);
    assert_eq!(shape_product(&[]), 1);
    assert!(is_in_bounds(&[1, 2], &[2, 3]));
    assert!(!is_in_bounds(&[2, 2], &[2, 3]));
    assert!(!is_in_bounds(&[1], &[2, 3]));
}

#[test]
fn slice_mut_writes_only_its_window() {
    let mut array = NDArray::<u8>::from_slice(&[2, 3], &[1, 2, 3, 4, 5, 6]);
    {
        let mut row = array.slice_mut(&[1]);
        assert_eq!(row.shape(), &[3]);
        *row.idx_mut(&[0]) = 40;
        row.get_data_mut()[2] = 60;
    }
    assert_eq!(array.get_data(), &[1, 2, 3, 40, 5, 60]);
    array.slice_mut(&[0]).assign(&NDArray::<u8>::new(&[3], 9));
    assert_eq!(array.get_data(), &[9, 9, 9, 40, 5, 60]);
}
